//! What holds of every page of console logs.

use vstd::prelude::*;

use crate::json;
use crate::logs;
use crate::text;

verus! {

/// The lines of files of which the latest comes first: of two groups of files the later group comes
/// last. A file gives its lines, and one that cannot be read a single empty line.
pub proof fn law_lines_of_all_files(
    late: Seq<Option<String>>,
    early: Seq<Option<String>>,
    file: String,
)
    ensures
        logs::all_lines(late + early) == logs::all_lines(early) + logs::all_lines(late),
        logs::all_lines(Seq::empty()) == Seq::<Seq<char>>::empty(),
        logs::all_lines(seq![Some(file)]) == text::split_on(file@, '\n'),
        logs::all_lines(seq![None]) == seq![Seq::<char>::empty()],
    decreases early.len(),
{
    let one = seq![Some(file)];
    let none = seq![None::<String>];
    assert(one.drop_last() =~= Seq::empty());
    assert(none.drop_last() =~= Seq::empty());
    assert(logs::all_lines(Seq::empty()) =~= Seq::<Seq<char>>::empty());
    assert(logs::all_lines(one) =~= text::split_on(file@, '\n'));
    assert(logs::all_lines(none) =~= seq![Seq::<char>::empty()]);
    if early.len() == 0 {
        assert(late + early =~= late);
        assert(logs::all_lines(late + early) =~= logs::all_lines(early) + logs::all_lines(late));
    } else {
        assert((late + early).drop_last() =~= late + early.drop_last());
        law_lines_of_all_files(late, early.drop_last(), file);
        assert(logs::all_lines(late + early) =~= logs::all_lines(early) + logs::all_lines(late));
    }
}

/// Every line of every file is shown, at the place that the lines of all earlier files leave it.
pub proof fn law_every_line_is_shown(contents: Seq<Option<String>>, k: int, i: int)
    requires
        0 <= k < contents.len(),
        contents[k] is Some,
        0 <= i < text::split_on(contents[k]->0@, '\n').len(),
    ensures
        logs::all_lines(contents).len() == logs::all_lines(contents.skip(k + 1)).len()
            + text::split_on(contents[k]->0@, '\n').len() + logs::all_lines(
            contents.take(k),
        ).len(),
        logs::all_lines(contents)[logs::all_lines(contents.skip(k + 1)).len() + i]
            == text::split_on(contents[k]->0@, '\n')[i],
{
    let s = contents[k]->0;
    let late = contents.take(k);
    let early = contents.skip(k + 1);
    let one = seq![contents[k]];
    assert(contents =~= late + (one + early));
    law_lines_of_all_files(late, one + early, s);
    law_lines_of_all_files(one, early, s);
}

/// The page of console logs shows all their lines, and as its first and last stamp the first words
/// of the first line and of the last one, or of the one before where the last is empty. The lines of
/// the error log are there exactly where there is one.
pub proof fn law_logs_page(error: Option<Seq<char>>, contents: Seq<Option<String>>)
    requires
        contents.len() > 0,
    ensures
        ({
            let lines = logs::all_lines(contents);
            let n = lines.len() as int;
            let end = if lines[n - 1].len() == 0 && n > 1 {
                lines[n - 2]
            } else {
                lines[n - 1]
            };
            &&& n > 0
            &&& logs::logs_page(error, contents) matches Some(page) && {
                &&& json::field(page, "logs"@) == Some(json::strings(lines))
                &&& json::field(page, "recent"@) == Some(
                    json::strings(
                        seq![text::before_first(lines[0], ' '), text::before_first(end, ' ')],
                    ),
                )
                &&& json::field(page, "error"@) == (match error {
                    Some(e) => Some(json::strings(text::split_on(e, '\n'))),
                    None => None,
                })
            }
        }),
{
    text::lemma_split_nonempty(logs::text_or_empty(contents.last()), '\n');
    reveal_strlit("recent");
    reveal_strlit("logs");
    reveal_strlit("error");
    assert("recent"@.len() != "logs"@.len());
    assert("recent"@.len() != "error"@.len());
    assert("logs"@.len() != "error"@.len());
    let lines = logs::all_lines(contents);
    let o = logs::logs_page(error, contents)->0->Object_0;
    let end = logs::final_line(lines);
    let words = seq![text::before_first(lines[0], ' '), text::before_first(end, ' ')];
    assert(json::strings(words)->Array_0 =~= o[0].1->Array_0);
    json::lemma_find_key_is(o, "recent"@, 0);
    json::lemma_find_key_is(o, "logs"@, 1);
    json::lemma_find_key_is(o, "error"@, 2);
}

/// Without console logs the page has the error log alone, and there is no page without either.
pub proof fn law_logs_page_without_consoles(error: Seq<char>)
    ensures
        logs::logs_page(None, Seq::empty()) is None,
        logs::logs_page(Some(error), Seq::empty()) matches Some(page) && {
            &&& json::field(page, "error"@) == Some(json::strings(text::split_on(error, '\n')))
            &&& json::field(page, "logs"@) is None
        },
{
    reveal_strlit("logs");
    reveal_strlit("error");
    assert("logs"@.len() != "error"@.len());
    let o = logs::logs_page(Some(error), Seq::empty())->0->Object_0;
    json::lemma_find_key_is(o, "error"@, 0);
    json::lemma_find_key_is(o, "logs"@, 1);
}

} // verus!
