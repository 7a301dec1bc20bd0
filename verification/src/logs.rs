//! Console logs and requirements of a run.

use vstd::prelude::*;

use crate::codec;
use crate::json::{self, Json, JsonMap, JsonV, json_texts};
use crate::order::{self, sort_texts};
use crate::text::{self, first_part, same_text, split_text};

verus! {

/// The name of the log of errors.
pub const ERROR_LOG: &'static str = "error.log";

/// The place of the error log among the files of a console folder, or the number of files.
pub open spec fn error_place(names: Seq<String>) -> int
    decreases names.len(),
{
    if names.len() == 0 || names[0]@ == ERROR_LOG@ {
        0
    } else {
        1 + error_place(names.drop_first())
    }
}

proof fn lemma_error_place(names: Seq<String>)
    ensures
        0 <= error_place(names) <= names.len(),
        error_place(names) < names.len() ==> names[error_place(names)]@ == ERROR_LOG@,
        forall|j: int| 0 <= j < error_place(names) ==> (#[trigger] names[j])@ != ERROR_LOG@,
    decreases names.len(),
{
    if names.len() > 0 && names[0]@ != ERROR_LOG@ {
        let rest = names.drop_first();
        lemma_error_place(rest);
        assert forall|j: int| 0 <= j < error_place(names) implies (#[trigger] names[j])@
            != ERROR_LOG@ by {
            if j > 0 {
                assert(rest[j - 1] == names[j]);
            }
        }
    }
}

/// The console logs among the files of a console folder: all but the error log.
pub open spec fn console_logs(names: Seq<String>) -> Seq<String> {
    if error_place(names) < names.len() {
        names.remove(error_place(names))
    } else {
        names
    }
}

/// Which files of a console folder to read.
#[derive(Debug, PartialEq)]
pub struct ConsolePlan {
    /// Whether there is an error log.
    pub has_error: bool,
    /// The console logs, the latest first. Their names are dates.
    pub consoles: Vec<String>,
}

/// Which files of a console folder to read: the error log, if there is one, and the others in
/// descending order of their names.
pub fn console_plan(names: &Vec<String>) -> (r: ConsolePlan)
    ensures
        r.has_error == (error_place(names@) < names.len()),
        text::texts(r.consoles@) == order::in_order(console_logs(names@)).reverse(),
{
    let mut place: usize = 0;
    proof {
        lemma_error_place(names@);
    }
    while place < names.len() && !same_text(names[place].as_str(), ERROR_LOG)
        invariant
            place <= error_place(names@),
            0 <= error_place(names@) <= names.len(),
            error_place(names@) < names.len() ==> names@[error_place(names@)]@ == ERROR_LOG@,
            forall|j: int|
                0 <= j < error_place(names@) ==> (#[trigger] names@[j])@ != ERROR_LOG@,
        decreases names.len() - place,
    {
        place += 1;
    }
    let mut rest: Vec<String> = Vec::new();
    let mut i: usize = 0;
    while i < names.len()
        invariant
            i <= names.len(),
            place <= names.len(),
            rest.len() == i - if place < i {
                1int
            } else {
                0int
            },
            forall|j: int| 0 <= j < rest.len() && j < place ==> #[trigger] rest@[j] == names@[j],
            forall|j: int|
                place <= j < rest.len() ==> #[trigger] rest@[j] == names@[j + 1],
        decreases names.len() - i,
    {
        if i != place {
            rest.push(names[i].clone());
        }
        i += 1;
    }
    proof {
        assert(place == error_place(names@));
        assert(rest@ =~= console_logs(names@));
    }
    let sorted = sort_texts(&rest);
    let ghost ordered = text::texts(sorted@);
    let mut consoles: Vec<String> = Vec::new();
    let mut k: usize = sorted.len();
    while k > 0
        invariant
            k <= sorted.len(),
            consoles.len() == sorted.len() - k,
            forall|j: int|
                0 <= j < consoles.len() ==> (#[trigger] consoles@[j])@ == sorted@[sorted.len() - 1
                    - j]@,
        decreases k,
    {
        k -= 1;
        consoles.push(sorted[k].clone());
    }
    proof {
        assert(text::texts(consoles@) =~= ordered.reverse());
    }
    ConsolePlan { has_error: place < names.len(), consoles }
}

/// The text of a file, empty where it could not be read.
pub open spec fn text_or_empty(content: Option<String>) -> Seq<char> {
    match content {
        Some(s) => s@,
        None => Seq::empty(),
    }
}

/// The lines of files of which the latest comes first: those of the earliest file first.
pub open spec fn all_lines(contents: Seq<Option<String>>) -> Seq<Seq<char>>
    decreases contents.len(),
{
    if contents.len() == 0 {
        Seq::empty()
    } else {
        text::split_on(text_or_empty(contents.last()), '\n') + all_lines(contents.drop_last())
    }
}

/// The last line, or the one before it where the last one is empty and not the only one.
pub open spec fn final_line(lines: Seq<Seq<char>>) -> Seq<char> {
    if lines.last().len() > 0 || lines.len() == 1 {
        lines.last()
    } else {
        lines[lines.len() - 2]
    }
}

/// What is shown of some lines: the first words of the first and of the final line, and the lines.
pub open spec fn recent(lines: Seq<Seq<char>>) -> Seq<(Seq<char>, JsonV)> {
    seq![
        (
            "recent"@,
            JsonV::Array(
                seq![
                    JsonV::Str(text::before_first(lines[0], ' ')),
                    JsonV::Str(text::before_first(final_line(lines), ' ')),
                ],
            ),
        ),
        ("logs"@, json::strings(lines)),
    ]
}

/// The lines of the error log.
pub open spec fn error_lines(error: Seq<char>) -> JsonV {
    json::strings(text::split_on(error, '\n'))
}

/// The console logs of a run and its error log.
pub open spec fn logs_page(error: Option<Seq<char>>, contents: Seq<Option<String>>) -> Option<
    JsonV,
> {
    if contents.len() == 0 {
        match error {
            Some(e) => Some(JsonV::Object(seq![("error"@, error_lines(e))])),
            None => None,
        }
    } else {
        let o = recent(all_lines(contents));
        match error {
            Some(e) => Some(JsonV::Object(o.push(("error"@, error_lines(e))))),
            None => Some(JsonV::Object(o)),
        }
    }
}

fn lines_before(lines: Vec<String>, rest: &Vec<String>) -> (r: Vec<String>)
    ensures
        text::texts(r@) == text::texts(lines@) + text::texts(rest@),
{
    let ghost first = text::texts(lines@);
    let ghost second = text::texts(rest@);
    let mut r = lines;
    let mut i: usize = 0;
    proof {
        assert(first + second.take(0) =~= first);
    }
    while i < rest.len()
        invariant
            i <= rest.len(),
            second == text::texts(rest@),
            text::texts(r@) == first + second.take(i as int),
        decreases rest.len() - i,
    {
        let ghost before = r@;
        r.push(rest[i].clone());
        proof {
            assert(text::texts(r@) =~= text::texts(before).push(second[i as int]));
            assert(first + second.take(i + 1) =~= (first + second.take(i as int)).push(
                second[i as int],
            ));
        }
        i += 1;
    }
    proof {
        assert(second.take(second.len() as int) =~= second);
    }
    r
}

fn join_logs(contents: &Vec<Option<String>>) -> (r: Vec<String>)
    ensures
        text::texts(r@) == all_lines(contents@),
{
    let mut logs: Vec<String> = Vec::new();
    let mut i: usize = 0;
    proof {
        assert(text::texts(logs@) =~= all_lines(contents@.take(0)));
    }
    while i < contents.len()
        invariant
            i <= contents.len(),
            text::texts(logs@) == all_lines(contents@.take(i as int)),
        decreases contents.len() - i,
    {
        let lines = match &contents[i] {
            Some(s) => split_text(s.as_str(), '\n'),
            None => split_text("", '\n'),
        };
        proof {
            reveal_strlit("");
            assert(""@ =~= Seq::empty());
            assert(contents@.take(i + 1).drop_last() =~= contents@.take(i as int));
            assert(contents@.take(i + 1).last() == contents@[i as int]);
        }
        logs = lines_before(lines, &logs);
        i += 1;
    }
    proof {
        assert(contents@.take(contents@.len() as int) =~= contents@);
    }
    logs
}

proof fn lemma_some_line(contents: Seq<Option<String>>)
    requires
        contents.len() > 0,
    ensures
        all_lines(contents).len() >= 1,
{
    text::lemma_split_nonempty(text_or_empty(contents.last()), '\n');
}

/// The console logs of a run, the latest file first in `contents`, and the text of its error log.
/// Nothing where there are neither.
pub fn recent_logs(error: &Option<String>, contents: &Vec<Option<String>>) -> (r: Option<Json>)
    ensures
        codec::optional(r) == logs_page(text::optional_text(*error), contents@),
{
    let error_json = match error {
        Some(e) => Some(json_texts(&split_text(e.as_str(), '\n'))),
        None => None,
    };
    let mut m = JsonMap::new();
    if contents.len() == 0 {
        return match error_json {
            Some(e) => {
                m.append("error", e);
                proof {
                    let made = logs_page(text::optional_text(*error), contents@);
                    assert(m@ =~= made->0->Object_0);
                }
                Some(Json::Object(m))
            },
            None => None,
        };
    }
    let logs = join_logs(contents);
    let ghost lines = text::texts(logs@);
    proof {
        lemma_some_line(contents@);
        assert(lines.len() == logs.len());
        assert(lines.last() == logs@[logs.len() - 1]@);
    }
    let n: usize = logs.len();
    let last = if !logs[n - 1].as_str().is_empty() || n == 1 {
        &logs[n - 1]
    } else {
        &logs[n - 2]
    };
    let end = first_part(last.as_str(), ' ');
    let start = first_part(logs[0].as_str(), ' ');
    let mut words: Vec<Json> = Vec::new();
    words.push(Json::Str(start));
    words.push(Json::Str(end));
    let ghost shown = recent(lines);
    proof {
        assert(last@ == final_line(lines));
        assert(json::list_view(words) =~= shown[0].1->Array_0);
    }
    m.append("recent", Json::Array(words));
    m.append("logs", json_texts(&logs));
    proof {
        assert(m@ =~= shown);
    }
    match error_json {
        Some(e) => {
            m.append("error", e);
        },
        None => {},
    }
    Some(Json::Object(m))
}

/// The requirements of a run, from the text of its requirements file; nothing where there is none.
pub fn requirements(content: &Option<String>) -> (r: Option<Json>)
    ensures
        codec::optional(r) == (match *content {
            Some(s) => Some(
                JsonV::Object(
                    seq![("requirements"@, json::strings(text::split_on(s@, '\n')))],
                ),
            ),
            None => None,
        }),
{
    match content {
        Some(s) => {
            let mut m = JsonMap::new();
            m.append("requirements", json_texts(&split_text(s.as_str(), '\n')));
            proof {
                let made = seq![
                    ("requirements"@, json::strings(text::split_on(s@, '\n'))),
                ];
                assert(m@ =~= made);
            }
            Some(Json::Object(m))
        },
        None => None,
    }
}

} // verus!
