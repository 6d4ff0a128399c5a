//! A table of addons for the terminal: fixed columns between pipes, long
//! texts wrapped word by word onto further lines.

use crate::models::Mod;
use crate::text::{
    append_chars, byte_len, contains_text, copy_range, decimal, from_chars, lemma_decimal_len,
    lemma_len_at_most_utf8_len, lemma_utf8_len_of_concat, lemma_words_are_not_empty, occurs_at,
    padded, push_decimal, push_padded, split_whitespace, to_chars, utf8_len, views, words,
};
use vstd::prelude::*;

verus! {

/// The width of the identifier column, in characters.
pub const ID_WIDTH: usize = 12;

/// The width of the name column, in characters.
pub const NAME_WIDTH: usize = 30;

/// The width of the version column, in characters.
pub const VERSION_WIDTH: usize = 30;

/// The width of the summary column, in characters.
pub const SUMMARY_WIDTH: usize = 50;

/// The width of the download count column, in characters.
pub const COUNT_WIDTH: usize = 14;

/// The width of a line of the table whose cells all fit their columns.
pub const LINE_WIDTH: usize = 152;

/// One row of the table.
#[derive(Debug)]
#[allow(inconsistent_fields)]
pub enum ModRow {
    /// The titles of the columns.
    Header { id: String, name: String, version: String, summary: String, download_count: String },
    /// One addon.
    Data { id: u32, name: String, version: String, summary: String, download_count: u32 },
}

/// What a [`ModRow`] is, over plain texts.
#[allow(inconsistent_fields)]
pub enum RowModel {
    Header {
        id: Seq<char>,
        name: Seq<char>,
        version: Seq<char>,
        summary: Seq<char>,
        download_count: Seq<char>,
    },
    Data { id: u32, name: Seq<char>, version: Seq<char>, summary: Seq<char>, download_count: u32 },
}

impl View for ModRow {
    type V = RowModel;

    open spec fn view(&self) -> RowModel {
        match *self {
            ModRow::Header { id, name, version, summary, download_count } => RowModel::Header {
                id: id@,
                name: name@,
                version: version@,
                summary: summary@,
                download_count: download_count@,
            },
            ModRow::Data { id, name, version, summary, download_count } => RowModel::Data {
                id,
                name: name@,
                version: version@,
                summary: summary@,
                download_count,
            },
        }
    }
}

impl RowModel {
    /// The name that the row shows in the name column.
    pub open spec fn name(self) -> Seq<char> {
        match self {
            RowModel::Header { name, .. } => name,
            RowModel::Data { name, .. } => name,
        }
    }
}

/// One cell of a line: a blank, the text filled up with blanks to `width`
/// characters, a blank and a pipe.
pub open spec fn cell(text: Seq<char>, width: nat) -> Seq<char> {
    seq![' '] + padded(text, width) + seq![' ', '|']
}

/// One line of the table: a pipe, then the five cells.
pub open spec fn table_line(
    id: Seq<char>,
    name: Seq<char>,
    version: Seq<char>,
    summary: Seq<char>,
    download_count: Seq<char>,
) -> Seq<char> {
    seq!['|'] + cell(id, ID_WIDTH as nat) + cell(name, NAME_WIDTH as nat) + cell(
        version,
        VERSION_WIDTH as nat,
    ) + cell(summary, SUMMARY_WIDTH as nat) + cell(download_count, COUNT_WIDTH as nat)
}

fn push_cell(out: &mut Vec<char>, text: &Vec<char>, width: usize)
    ensures
        final(out)@ == old(out)@ + cell(text@, width as nat),
{
    out.push(' ');
    push_padded(out, text, width);
    out.push(' ');
    out.push('|');
    assert(out@ =~= old(out)@ + cell(text@, width as nat));
}

fn table_line_chars(
    id: &Vec<char>,
    name: &Vec<char>,
    version: &Vec<char>,
    summary: &Vec<char>,
    download_count: &Vec<char>,
) -> (out: Vec<char>)
    ensures
        out@ == table_line(id@, name@, version@, summary@, download_count@),
{
    let mut out: Vec<char> = Vec::new();
    out.push('|');
    assert(out@ =~= seq!['|']);
    push_cell(&mut out, id, ID_WIDTH);
    push_cell(&mut out, name, NAME_WIDTH);
    push_cell(&mut out, version, VERSION_WIDTH);
    push_cell(&mut out, summary, SUMMARY_WIDTH);
    push_cell(&mut out, download_count, COUNT_WIDTH);
    out
}

/// The rows after the word `word` is set: on a row of its own where the
/// last row, the word and a blank between them take more than `length`
/// bytes, and else at the end of the last row, after a blank unless the row
/// is empty. With no row yet, the word starts the first.
pub open spec fn wrap_step(rows: Seq<Seq<char>>, word: Seq<char>, length: nat) -> Seq<Seq<char>> {
    if rows.len() == 0 {
        seq![word]
    } else if utf8_len(rows.last()) + utf8_len(word) + 1 > length {
        rows.push(word)
    } else if rows.last().len() == 0 {
        rows.drop_last().push(word)
    } else {
        rows.drop_last().push(rows.last() + seq![' '] + word)
    }
}

/// The rows after the words `words` are set one after the other.
pub open spec fn wrapped(rows: Seq<Seq<char>>, words: Seq<Seq<char>>, length: nat) -> Seq<
    Seq<char>,
>
    decreases words.len(),
{
    if words.len() == 0 {
        rows
    } else {
        wrap_step(wrapped(rows, words.drop_last(), length), words.last(), length)
    }
}

/// The rows of the text `text` wrapped to `length` bytes: its words set one
/// after the other, starting from one empty row.
pub open spec fn wrapped_text(text: Seq<char>, length: nat) -> Seq<Seq<char>> {
    wrapped(seq![Seq::empty()], words(text), length)
}

/// The row of `rows` at index `i`, or the empty text where there is none.
pub open spec fn row_or_blank(rows: Seq<Seq<char>>, i: int) -> Seq<char> {
    if 0 <= i < rows.len() {
        rows[i]
    } else {
        Seq::empty()
    }
}

/// The greatest of three lengths.
pub open spec fn max3(a: nat, b: nat, c: nat) -> nat {
    if a >= b && a >= c {
        a
    } else if b >= c {
        b
    } else {
        c
    }
}

/// Line `i` of an addon's row: the row `i` of each wrapped text, and on the
/// first line the identifier and the download count as well.
pub open spec fn data_line(
    id: u32,
    names: Seq<Seq<char>>,
    versions: Seq<Seq<char>>,
    summaries: Seq<Seq<char>>,
    download_count: u32,
    i: int,
) -> Seq<char> {
    table_line(
        if i == 0 {
            decimal(id as nat)
        } else {
            Seq::empty()
        },
        row_or_blank(names, i),
        row_or_blank(versions, i),
        row_or_blank(summaries, i),
        if i == 0 {
            decimal(download_count as nat)
        } else {
            Seq::empty()
        },
    )
}

/// The lines of an addon's row: as many as the longest of its wrapped texts has rows.
pub open spec fn data_lines(
    id: u32,
    name: Seq<char>,
    version: Seq<char>,
    summary: Seq<char>,
    download_count: u32,
) -> Seq<Seq<char>> {
    let names = wrapped_text(name, NAME_WIDTH as nat);
    let versions = wrapped_text(version, VERSION_WIDTH as nat);
    let summaries = wrapped_text(summary, SUMMARY_WIDTH as nat);
    Seq::new(
        max3(names.len(), summaries.len(), versions.len()),
        |i: int| data_line(id, names, versions, summaries, download_count, i),
    )
}

/// The lines `lines` with a line feed between each two.
pub open spec fn joined(lines: Seq<Seq<char>>) -> Seq<char>
    decreases lines.len(),
{
    if lines.len() == 0 {
        Seq::empty()
    } else if lines.len() == 1 {
        lines[0]
    } else {
        joined(lines.drop_last()) + seq!['\n'] + lines.last()
    }
}

/// The text of a row. A header is one line with its titles as they are. An
/// addon has its name, version and summary wrapped to the widths of their
/// columns, and takes one line for each row of the longest.
pub open spec fn row_text(row: RowModel) -> Seq<char> {
    match row {
        RowModel::Header { id, name, version, summary, download_count } => table_line(
            id,
            name,
            version,
            summary,
            download_count,
        ),
        RowModel::Data { id, name, version, summary, download_count } => joined(
            data_lines(id, name, version, summary, download_count),
        ),
    }
}

/// The rows of the text `text` wrapped to `length` bytes.
fn wrap_text(text: &String, length: usize) -> (rows: Vec<Vec<char>>)
    ensures
        views(rows@) == wrapped_text(text@, length as nat),
{
    let chars = to_chars(text.as_str());
    let found = split_whitespace(&chars);
    let mut rows: Vec<Vec<char>> = Vec::new();
    rows.push(Vec::new());
    assert(views(rows@) =~= seq![Seq::<char>::empty()]);
    ModRow::wrap_field_line(&found, &mut rows, length);
    rows
}

/// Whether a row of `a` bytes, a blank and a word of `b` bytes take more
/// than `limit` bytes together.
fn too_long(a: usize, b: usize, limit: usize) -> (r: bool)
    ensures
        r == (a + b + 1 > limit),
{
    a >= limit || b >= limit - a
}

impl ModRow {
    /// A row of column titles.
    pub fn new_header(id: &str, name: &str, version: &str, summary: &str, download_count: &str) -> (row:
        Self)
        ensures
            row@ == (RowModel::Header {
                id: id@,
                name: name@,
                version: version@,
                summary: summary@,
                download_count: download_count@,
            }),
    {
        ModRow::Header {
            id: id.to_owned(),
            name: name.to_owned(),
            version: version.to_owned(),
            summary: summary.to_owned(),
            download_count: download_count.to_owned(),
        }
    }

    /// A row for one addon.
    pub fn new_data(id: u32, name: &str, version: &str, summary: &str, download_count: u32) -> (row:
        Self)
        ensures
            row@ == (RowModel::Data {
                id,
                name: name@,
                version: version@,
                summary: summary@,
                download_count,
            }),
    {
        ModRow::Data {
            id,
            name: name.to_owned(),
            version: version.to_owned(),
            summary: summary.to_owned(),
            download_count,
        }
    }

    /// The text of the row, as [`row_text`] says, without a line feed at its end.
    pub fn format_row(&self) -> (text: String)
        ensures
            text@ == row_text(self@),
    {
        match self {
            ModRow::Header { id, name, version, summary, download_count } => {
                let line = table_line_chars(
                    &to_chars(id.as_str()),
                    &to_chars(name.as_str()),
                    &to_chars(version.as_str()),
                    &to_chars(summary.as_str()),
                    &to_chars(download_count.as_str()),
                );
                from_chars(&line)
            },
            ModRow::Data { id, name, version, summary, download_count } => {
                let names = wrap_text(name, NAME_WIDTH);
                let versions = wrap_text(version, VERSION_WIDTH);
                let summaries = wrap_text(summary, SUMMARY_WIDTH);
                let mut count: usize = names.len();
                if summaries.len() > count {
                    count = summaries.len();
                }
                if versions.len() > count {
                    count = versions.len();
                }
                let mut id_text: Vec<char> = Vec::new();
                push_decimal(&mut id_text, *id as u64);
                assert(id_text@ =~= decimal(*id as nat));
                let mut count_text: Vec<char> = Vec::new();
                push_decimal(&mut count_text, *download_count as u64);
                assert(count_text@ =~= decimal(*download_count as nat));
                let blank: Vec<char> = Vec::new();
                assert(blank@ =~= Seq::<char>::empty());
                let ghost lines = data_lines(*id, name@, version@, summary@, *download_count);
                assert(lines.len() == count);
                let mut out: Vec<char> = Vec::new();
                let mut i: usize = 0;
                assert(lines.take(0) =~= Seq::<Seq<char>>::empty());
                assert(out@ =~= joined(lines.take(0)));
                while i < count
                    invariant
                        i <= count,
                        lines.len() == count,
                        lines == data_lines(*id, name@, version@, summary@, *download_count),
                        views(names@) == wrapped_text(name@, NAME_WIDTH as nat),
                        views(versions@) == wrapped_text(version@, VERSION_WIDTH as nat),
                        views(summaries@) == wrapped_text(summary@, SUMMARY_WIDTH as nat),
                        id_text@ == decimal(*id as nat),
                        count_text@ == decimal(*download_count as nat),
                        blank@ == Seq::<char>::empty(),
                        out@ == joined(lines.take(i as int)),
                    decreases count - i,
                {
                    let name_row = if i < names.len() {
                        &names[i]
                    } else {
                        &blank
                    };
                    let version_row = if i < versions.len() {
                        &versions[i]
                    } else {
                        &blank
                    };
                    let summary_row = if i < summaries.len() {
                        &summaries[i]
                    } else {
                        &blank
                    };
                    assert(name_row@ == row_or_blank(views(names@), i as int));
                    assert(version_row@ == row_or_blank(views(versions@), i as int));
                    assert(summary_row@ == row_or_blank(views(summaries@), i as int));
                    let line = if i == 0 {
                        table_line_chars(&id_text, name_row, version_row, summary_row, &count_text)
                    } else {
                        table_line_chars(&blank, name_row, version_row, summary_row, &blank)
                    };
                    assert(line@ == lines[i as int]);
                    let ghost shown = lines.take(i + 1);
                    assert(shown.drop_last() =~= lines.take(i as int));
                    assert(shown.last() == lines[i as int]);
                    if i > 0 {
                        out.push('\n');
                        assert(out@ =~= joined(lines.take(i as int)) + seq!['\n']);
                    } else {
                        assert(out@ + line@ =~= line@);
                    }
                    append_chars(&mut out, &line);
                    assert(out@ == joined(shown));
                    i += 1;
                }
                assert(lines.take(count as int) =~= lines);
                from_chars(&out)
            },
        }
    }

    /// Sets the words `words` one after the other onto the rows `rows`,
    /// none of which then takes more than `length` bytes unless it is a
    /// single word.
    pub fn wrap_field_line(words: &Vec<Vec<char>>, rows: &mut Vec<Vec<char>>, length: usize)
        ensures
            views(final(rows)@) == wrapped(views(old(rows)@), views(words@), length as nat),
    {
        let mut k: usize = 0;
        assert(views(words@).take(0) =~= Seq::<Seq<char>>::empty());
        while k < words.len()
            invariant
                k <= words.len(),
                views(rows@) == wrapped(
                    views(old(rows)@),
                    views(words@).take(k as int),
                    length as nat,
                ),
            decreases words.len() - k,
        {
            let ghost before = views(rows@);
            let ghost set = views(words@).take(k + 1);
            assert(set.drop_last() =~= views(words@).take(k as int));
            assert(set.last() == words[k as int]@);
            let word = copy_range(&words[k], 0, words[k].len());
            assert(word@ =~= words[k as int]@);
            if rows.len() == 0 {
                rows.push(word);
                assert(views(rows@) =~= wrap_step(before, word@, length as nat));
            } else {
                let n: usize = rows.len();
                let a: usize = byte_len(&rows[n - 1]);
                let b: usize = byte_len(&word);
                assert(before.last() == rows[n - 1]@);
                if too_long(a, b, length) {
                    rows.push(word);
                    assert(views(rows@) =~= wrap_step(before, word@, length as nat));
                } else {
                    let mut last = rows.pop().unwrap();
                    assert(views(rows@) =~= before.drop_last());
                    assert(last@ == before.last());
                    if last.len() > 0 {
                        last.push(' ');
                        assert(last@ =~= before.last() + seq![' ']);
                    }
                    append_chars(&mut last, &word);
                    let ghost row = if before.last().len() == 0 {
                        word@
                    } else {
                        before.last() + seq![' '] + word@
                    };
                    assert(last@ =~= row);
                    rows.push(last);
                    assert(views(rows@) =~= before.drop_last().push(row));
                }
            }
            k += 1;
        }
        assert(views(words@).take(words.len() as int) =~= views(words@));
    }
}

/// Whether the row `row` fits into `length` bytes, or is one of the words `words`.
pub open spec fn fits_or_is_word(row: Seq<char>, words: Seq<Seq<char>>, length: nat) -> bool {
    utf8_len(row) <= length || words.contains(row)
}

/// Setting words keeps rows within their length: where each row fits into
/// `length` bytes or is a single word before, so does each row after.
pub proof fn lemma_wrapped_rows_fit(
    rows: Seq<Seq<char>>,
    all: Seq<Seq<char>>,
    n: int,
    length: nat,
    i: int,
)
    requires
        0 <= n <= all.len(),
        forall|k: int| 0 <= k < rows.len() ==> fits_or_is_word(#[trigger] rows[k], all, length),
        0 <= i < wrapped(rows, all.take(n), length).len(),
    ensures
        fits_or_is_word(wrapped(rows, all.take(n), length)[i], all, length),
    decreases n,
{
    if n > 0 {
        let set = all.take(n);
        let before = wrapped(rows, set.drop_last(), length);
        let word = set.last();
        assert(set.drop_last() =~= all.take(n - 1));
        assert(word == all[n - 1]);
        assert(all.contains(word));
        let after = wrap_step(before, word, length);
        if before.len() == 0 {
        } else if utf8_len(before.last()) + utf8_len(word) + 1 > length {
            if i < before.len() {
                lemma_wrapped_rows_fit(rows, all, n - 1, length, i);
            }
        } else if i < before.len() - 1 {
            lemma_wrapped_rows_fit(rows, all, n - 1, length, i);
        } else if before.last().len() == 0 {
        } else {
            lemma_utf8_len_of_concat(before.last(), seq![' ']);
            lemma_utf8_len_of_concat(before.last() + seq![' '], word);
            assert(utf8_len(seq![' ']) == 1) by {
                assert(seq![' '].drop_last() =~= Seq::<char>::empty());
                assert(utf8_len(seq![' '].drop_last()) == 0);
            }
        }
    } else {
        assert(all.take(0) =~= Seq::<Seq<char>>::empty());
    }
}

/// No wrapped row takes more than its length unless it is a single word:
/// each row of a text wrapped to `length` bytes fits into `length` bytes, or
/// is one of the words of the text.
pub proof fn lemma_wrapped_text_rows_fit(text: Seq<char>, length: nat, i: int)
    requires
        0 <= i < wrapped_text(text, length).len(),
    ensures
        fits_or_is_word(wrapped_text(text, length)[i], words(text), length),
{
    let all = words(text);
    let start = seq![Seq::<char>::empty()];
    assert(all.take(all.len() as int) =~= all);
    assert forall|k: int| 0 <= k < start.len() implies fits_or_is_word(
        #[trigger] start[k],
        all,
        length,
    ) by {
        assert(utf8_len(start[k]) == 0);
    }
    lemma_wrapped_rows_fit(start, all, all.len() as int, length, i);
}

/// Where no word of a text takes more than `length` bytes, no row of the
/// wrapped text holds more than `length` characters.
pub proof fn lemma_wrapped_text_within_width(text: Seq<char>, length: nat, i: int)
    requires
        forall|k: int| 0 <= k < words(text).len() ==> utf8_len(#[trigger] words(text)[k]) <= length,
        0 <= i < wrapped_text(text, length).len(),
    ensures
        wrapped_text(text, length)[i].len() <= length,
{
    lemma_wrapped_text_rows_fit(text, length, i);
    lemma_len_at_most_utf8_len(wrapped_text(text, length)[i]);
}

/// A line whose cells all fit their columns is as wide as the rule.
pub proof fn lemma_table_line_width(
    id: Seq<char>,
    name: Seq<char>,
    version: Seq<char>,
    summary: Seq<char>,
    download_count: Seq<char>,
)
    requires
        id.len() <= ID_WIDTH,
        name.len() <= NAME_WIDTH,
        version.len() <= VERSION_WIDTH,
        summary.len() <= SUMMARY_WIDTH,
        download_count.len() <= COUNT_WIDTH,
    ensures
        table_line(id, name, version, summary, download_count).len() == LINE_WIDTH,
        rule_line().len() == LINE_WIDTH,
{
}

/// Every line of an addon's row is as wide as the rule, where no word of
/// its name, version and summary takes more bytes than the column of the
/// text is wide.
pub proof fn lemma_data_lines_within_width(
    id: u32,
    name: Seq<char>,
    version: Seq<char>,
    summary: Seq<char>,
    download_count: u32,
    i: int,
)
    requires
        forall|k: int| 0 <= k < words(name).len() ==> utf8_len(#[trigger] words(name)[k]) <= NAME_WIDTH,
        forall|k: int|
            0 <= k < words(version).len() ==> utf8_len(#[trigger] words(version)[k]) <= VERSION_WIDTH,
        forall|k: int|
            0 <= k < words(summary).len() ==> utf8_len(#[trigger] words(summary)[k]) <= SUMMARY_WIDTH,
        0 <= i < data_lines(id, name, version, summary, download_count).len(),
    ensures
        data_lines(id, name, version, summary, download_count)[i].len() == LINE_WIDTH,
{
    let names = wrapped_text(name, NAME_WIDTH as nat);
    let versions = wrapped_text(version, VERSION_WIDTH as nat);
    let summaries = wrapped_text(summary, SUMMARY_WIDTH as nat);
    if i < names.len() {
        lemma_wrapped_text_within_width(name, NAME_WIDTH as nat, i);
    }
    if i < versions.len() {
        lemma_wrapped_text_within_width(version, VERSION_WIDTH as nat, i);
    }
    if i < summaries.len() {
        lemma_wrapped_text_within_width(summary, SUMMARY_WIDTH as nat, i);
    }
    lemma_decimal_len(id as nat);
    lemma_decimal_len(download_count as nat);
    let shown_id = if i == 0 {
        decimal(id as nat)
    } else {
        Seq::empty()
    };
    let shown_count = if i == 0 {
        decimal(download_count as nat)
    } else {
        Seq::empty()
    };
    lemma_table_line_width(
        shown_id,
        row_or_blank(names, i),
        row_or_blank(versions, i),
        row_or_blank(summaries, i),
        shown_count,
    );
}

/// The words `words` with one blank between each two.
pub open spec fn spaced(words: Seq<Seq<char>>) -> Seq<char>
    decreases words.len(),
{
    if words.len() == 0 {
        Seq::empty()
    } else if words.len() == 1 {
        words[0]
    } else {
        spaced(words.drop_last()) + seq![' '] + words.last()
    }
}

/// A text is single-spaced when it is its words with one blank between
/// each two: it has no white space at its ends, and none inside but single
/// blanks.
pub open spec fn single_spaced(text: Seq<char>) -> bool {
    text == spaced(words(text))
}

proof fn lemma_blank_is_one_byte()
    ensures
        utf8_len(seq![' ']) == 1,
{
    assert(seq![' '].drop_last() =~= Seq::<char>::empty());
    assert(utf8_len(seq![' '].drop_last()) == 0);
}

proof fn lemma_spaced_words_are_one_row(all: Seq<Seq<char>>, length: nat)
    requires
        forall|k: int| 0 <= k < all.len() ==> (#[trigger] all[k]).len() > 0,
        utf8_len(spaced(all)) < length,
    ensures
        wrapped(seq![Seq::empty()], all, length) == seq![spaced(all)],
        all.len() > 0 ==> spaced(all).len() > 0,
    decreases all.len(),
{
    if all.len() == 1 {
        assert(all.drop_last() =~= Seq::<Seq<char>>::empty());
        assert(wrapped(seq![Seq::<char>::empty()], all.drop_last(), length) == seq![
            Seq::<char>::empty(),
        ]);
        assert(utf8_len(Seq::<char>::empty()) == 0);
        assert(seq![Seq::<char>::empty()].drop_last().push(all.last()) =~= seq![all[0]]);
    } else if all.len() > 1 {
        let first = spaced(all.drop_last());
        let word = all.last();
        lemma_blank_is_one_byte();
        lemma_utf8_len_of_concat(first, seq![' ']);
        lemma_utf8_len_of_concat(first + seq![' '], word);
        lemma_spaced_words_are_one_row(all.drop_last(), length);
        assert(seq![first].drop_last().push(first + seq![' '] + word) =~= seq![spaced(all)]);
    }
}

/// A short text is not wrapped: a single-spaced text of fewer than `length`
/// bytes is the one row of its wrapped text.
pub proof fn lemma_short_text_is_one_row(text: Seq<char>, length: nat)
    requires
        single_spaced(text),
        utf8_len(text) < length,
    ensures
        wrapped_text(text, length) == seq![text],
{
    let all = words(text);
    assert forall|k: int| 0 <= k < all.len() implies (#[trigger] all[k]).len() > 0 by {
        lemma_words_are_not_empty(text, Seq::empty(), k);
    }
    lemma_spaced_words_are_one_row(all, length);
}

/// Where the name stands in a line: behind the pipe, the cell of the
/// identifier and a blank.
pub open spec fn name_start(id: Seq<char>) -> int {
    2 + cell(id, ID_WIDTH as nat).len() as int
}

/// A line shows its name: the text of the name column stands in the line
/// as one piece.
pub proof fn lemma_line_shows_its_name(
    id: Seq<char>,
    name: Seq<char>,
    version: Seq<char>,
    summary: Seq<char>,
    download_count: Seq<char>,
)
    ensures
        occurs_at(table_line(id, name, version, summary, download_count), name_start(id), name),
        contains_text(table_line(id, name, version, summary, download_count), name),
{
    let line = table_line(id, name, version, summary, download_count);
    let at = name_start(id);
    assert(padded(name, NAME_WIDTH as nat).subrange(0, name.len() as int) =~= name);
    assert(line.subrange(at, at + name.len()) =~= name);
}

/// A text that stands in another stands in every text that the other
/// stands in.
pub proof fn lemma_contains_is_transitive(outer: Seq<char>, inner: Seq<char>, pattern: Seq<char>)
    requires
        contains_text(outer, inner),
        contains_text(inner, pattern),
    ensures
        contains_text(outer, pattern),
{
    let a = choose|at: int| occurs_at(outer, at, inner);
    let b = choose|at: int| occurs_at(inner, at, pattern);
    assert(outer.subrange(a + b, a + b + pattern.len()) =~= outer.subrange(
        a,
        a + inner.len(),
    ).subrange(b, b + pattern.len()));
    assert(occurs_at(outer, a + b, pattern));
}

/// Whether `pattern` stands in one of the rows `rows` as one piece.
pub open spec fn stands_in_rows(rows: Seq<Seq<char>>, pattern: Seq<char>) -> bool {
    exists|r: int| 0 <= r < rows.len() && contains_text(#[trigger] rows[r], pattern)
}

/// Setting a word keeps what the rows show: each row starts the row that
/// stands in its place afterwards.
pub proof fn lemma_wrap_step_keeps_rows(rows: Seq<Seq<char>>, word: Seq<char>, length: nat, r: int)
    requires
        0 <= r < rows.len(),
    ensures
        r < wrap_step(rows, word, length).len(),
        rows[r].is_prefix_of(wrap_step(rows, word, length)[r]),
{
    let after = wrap_step(rows, word, length);
    assert(rows[r] =~= rows[r].subrange(0, rows[r].len() as int));
    if r == rows.len() - 1 && !(utf8_len(rows.last()) + utf8_len(word) + 1 > length) {
        if rows.last().len() == 0 {
            assert(rows[r] =~= after[r].subrange(0, 0));
        } else {
            assert(rows[r] =~= after[r].subrange(0, rows[r].len() as int));
        }
    }
}

/// Setting a word shows it: the word stands at the end of the last row.
pub proof fn lemma_wrap_step_sets_word(rows: Seq<Seq<char>>, word: Seq<char>, length: nat)
    ensures
        wrap_step(rows, word, length).len() > 0,
        contains_text(wrap_step(rows, word, length).last(), word),
{
    let last = wrap_step(rows, word, length).last();
    let at = last.len() - word.len();
    assert(last.subrange(at, at + word.len()) =~= word);
    assert(occurs_at(last, at, word));
}

/// Wrapping loses no word: each of the words set stands in one of the rows
/// as one piece.
pub proof fn lemma_wrapped_holds_each_word(
    rows: Seq<Seq<char>>,
    all: Seq<Seq<char>>,
    length: nat,
    k: int,
)
    requires
        0 <= k < all.len(),
    ensures
        stands_in_rows(wrapped(rows, all, length), all[k]),
    decreases all.len(),
{
    let before = wrapped(rows, all.drop_last(), length);
    let after = wrapped(rows, all, length);
    if k == all.len() - 1 {
        lemma_wrap_step_sets_word(before, all.last(), length);
        assert(contains_text(after[after.len() - 1], all[k]));
    } else {
        lemma_wrapped_holds_each_word(rows, all.drop_last(), length, k);
        let r = choose|r: int| 0 <= r < before.len() && contains_text(#[trigger] before[r], all[k]);
        lemma_wrap_step_keeps_rows(before, all.last(), length, r);
        assert(contains_text(after[r], before[r])) by {
            assert(occurs_at(after[r], 0, before[r]));
        }
        lemma_contains_is_transitive(after[r], before[r], all[k]);
    }
}

/// A line shows its cells: the texts of the name, the version and the
/// summary column each stand in the line as one piece.
pub proof fn lemma_line_shows_its_texts(
    id: Seq<char>,
    name: Seq<char>,
    version: Seq<char>,
    summary: Seq<char>,
    download_count: Seq<char>,
)
    ensures
        contains_text(table_line(id, name, version, summary, download_count), name),
        contains_text(table_line(id, name, version, summary, download_count), version),
        contains_text(table_line(id, name, version, summary, download_count), summary),
{
    let line = table_line(id, name, version, summary, download_count);
    lemma_line_shows_its_name(id, name, version, summary, download_count);
    let at = name_start(id) + cell(name, NAME_WIDTH as nat).len();
    assert(padded(version, VERSION_WIDTH as nat).subrange(0, version.len() as int) =~= version);
    assert(line.subrange(at, at + version.len()) =~= version);
    assert(occurs_at(line, at, version));
    let to = at + cell(version, VERSION_WIDTH as nat).len();
    assert(padded(summary, SUMMARY_WIDTH as nat).subrange(0, summary.len() as int) =~= summary);
    assert(line.subrange(to, to + summary.len()) =~= summary);
    assert(occurs_at(line, to, summary));
}

/// Lines set under each other show each of them as one piece.
pub proof fn lemma_joined_holds_each_line(lines: Seq<Seq<char>>, i: int)
    requires
        0 <= i < lines.len(),
    ensures
        contains_text(joined(lines), lines[i]),
    decreases lines.len(),
{
    let all = joined(lines);
    if lines.len() == 1 {
        assert(all.subrange(0, all.len() as int) =~= all);
        assert(occurs_at(all, 0, lines[i]));
    } else if i == lines.len() - 1 {
        let at = all.len() - lines[i].len();
        assert(all.subrange(at, at + lines[i].len()) =~= lines[i]);
        assert(occurs_at(all, at, lines[i]));
    } else {
        let first = joined(lines.drop_last());
        lemma_joined_holds_each_line(lines.drop_last(), i);
        assert(first =~= all.subrange(0, first.len() as int));
        assert(occurs_at(all, 0, first));
        lemma_contains_is_transitive(all, first, lines[i]);
    }
}

/// The row of an addon loses no word: each word of its name, of its
/// version and of its summary stands in the text of the row as one piece,
/// however long the texts are.
pub proof fn lemma_row_shows_every_word(
    id: u32,
    name: Seq<char>,
    version: Seq<char>,
    summary: Seq<char>,
    download_count: u32,
    word: Seq<char>,
)
    requires
        words(name).contains(word) || words(version).contains(word) || words(summary).contains(
            word,
        ),
    ensures
        contains_text(row_text(RowModel::Data { id, name, version, summary, download_count }), word),
{
    let names = wrapped_text(name, NAME_WIDTH as nat);
    let versions = wrapped_text(version, VERSION_WIDTH as nat);
    let summaries = wrapped_text(summary, SUMMARY_WIDTH as nat);
    let lines = data_lines(id, name, version, summary, download_count);
    let start = seq![Seq::<char>::empty()];
    let rows = if words(name).contains(word) {
        names
    } else if words(version).contains(word) {
        versions
    } else {
        summaries
    };
    if words(name).contains(word) {
        let k = choose|k: int| 0 <= k < words(name).len() && words(name)[k] == word;
        lemma_wrapped_holds_each_word(start, words(name), NAME_WIDTH as nat, k);
    } else if words(version).contains(word) {
        let k = choose|k: int| 0 <= k < words(version).len() && words(version)[k] == word;
        lemma_wrapped_holds_each_word(start, words(version), VERSION_WIDTH as nat, k);
    } else {
        let k = choose|k: int| 0 <= k < words(summary).len() && words(summary)[k] == word;
        lemma_wrapped_holds_each_word(start, words(summary), SUMMARY_WIDTH as nat, k);
    }
    let r = choose|r: int| 0 <= r < rows.len() && contains_text(#[trigger] rows[r], word);
    assert(lines[r] == data_line(id, names, versions, summaries, download_count, r));
    let shown_id = if r == 0 {
        decimal(id as nat)
    } else {
        Seq::empty()
    };
    let shown_count = if r == 0 {
        decimal(download_count as nat)
    } else {
        Seq::empty()
    };
    lemma_line_shows_its_texts(
        shown_id,
        row_or_blank(names, r),
        row_or_blank(versions, r),
        row_or_blank(summaries, r),
        shown_count,
    );
    lemma_contains_is_transitive(lines[r], rows[r], word);
    lemma_joined_holds_each_line(lines, r);
    lemma_contains_is_transitive(joined(lines), lines[r], word);
}

/// A row shows its name. The name of a header stands in its line as it is.
/// The name of an addon stands in the text of its row as one piece where it
/// is single-spaced and takes fewer bytes than the name column is wide.
pub proof fn lemma_row_shows_its_name(row: RowModel)
    requires
        row is Data ==> single_spaced(row.name()) && utf8_len(row.name()) < NAME_WIDTH,
    ensures
        contains_text(row_text(row), row.name()),
{
    match row {
        RowModel::Header { id, name, version, summary, download_count } => {
            lemma_line_shows_its_name(id, name, version, summary, download_count);
        },
        RowModel::Data { id, name, version, summary, download_count } => {
            lemma_short_text_is_one_row(name, NAME_WIDTH as nat);
            let names = wrapped_text(name, NAME_WIDTH as nat);
            let versions = wrapped_text(version, VERSION_WIDTH as nat);
            let summaries = wrapped_text(summary, SUMMARY_WIDTH as nat);
            let lines = data_lines(id, name, version, summary, download_count);
            assert(lines[0] == data_line(id, names, versions, summaries, download_count, 0));
            assert(row_or_blank(names, 0) == name);
            lemma_line_shows_its_name(
                decimal(id as nat),
                name,
                row_or_blank(versions, 0),
                row_or_blank(summaries, 0),
                decimal(download_count as nat),
            );
            lemma_joined_holds_each_line(lines, 0);
            lemma_contains_is_transitive(joined(lines), lines[0], name);
        },
    }
}

/// A table shows the names of its rows: the text of the row `i` is the
/// line `2 * i + 1` of the table, and the name of the row stands in it as
/// one piece, where the name of an addon is single-spaced and takes fewer
/// bytes than the name column is wide.
pub proof fn lemma_table_shows_its_names(rows: Seq<RowModel>, i: int)
    requires
        0 <= i < rows.len(),
        rows[i] is Data ==> single_spaced(rows[i].name()) && utf8_len(rows[i].name()) < NAME_WIDTH,
    ensures
        table_text(rows)[2 * i + 1] == row_text(rows[i]).push('\n'),
        contains_text(table_text(rows)[2 * i + 1], rows[i].name()),
{
    lemma_row_shows_its_name(rows[i]);
    let text = row_text(rows[i]);
    let name = rows[i].name();
    let at = choose|at: int| occurs_at(text, at, name);
    assert(text.push('\n').subrange(at, at + name.len()) =~= text.subrange(at, at + name.len()));
    assert(occurs_at(text.push('\n'), at, name));
}

/// A table loses no word of its addons: each word of the name, of the
/// version and of the summary of the addon in the row `i` stands in the
/// line `2 * i + 1` of the table as one piece.
pub proof fn lemma_table_shows_every_word(rows: Seq<RowModel>, i: int, word: Seq<char>)
    requires
        0 <= i < rows.len(),
        rows[i] matches RowModel::Data { name, version, summary, .. } && (words(name).contains(word)
            || words(version).contains(word) || words(summary).contains(word)),
    ensures
        contains_text(table_text(rows)[2 * i + 1], word),
{
    match rows[i] {
        RowModel::Data { id, name, version, summary, download_count } => {
            lemma_row_shows_every_word(id, name, version, summary, download_count, word);
        },
        _ => {},
    }
    let text = row_text(rows[i]);
    assert(text =~= text.push('\n').subrange(0, text.len() as int));
    assert(occurs_at(text.push('\n'), 0, text));
    lemma_contains_is_transitive(text.push('\n'), text, word);
}

/// A table filled from a list of addons shows the name of each: after the
/// rule and the header, the addon `i` of the list has the line
/// `2 * i + 3`, and its name stands in it as one piece, where the name is
/// single-spaced and takes fewer bytes than the name column is wide.
pub proof fn lemma_filled_table_shows_each_addon(mods: Seq<Mod>, i: int)
    requires
        0 <= i < mods.len(),
        single_spaced(mods[i].name@),
        utf8_len(mods[i].name@) < NAME_WIDTH,
    ensures
        contains_text(
            table_text(Seq::<RowModel>::empty().push(header_row()) + data_rows(mods))[2 * i + 3],
            mods[i].name@,
        ),
{
    let rows = Seq::<RowModel>::empty().push(header_row()) + data_rows(mods);
    assert(rows[i + 1] == data_row(mods[i]));
    lemma_table_shows_its_names(rows, i + 1);
}

/// The row of column titles that every table starts with.
pub open spec fn header_row() -> RowModel {
    RowModel::Header {
        id: "Mod ID"@,
        name: "Name"@,
        version: "Version/Display Name"@,
        summary: "Summary"@,
        download_count: "Download Count"@,
    }
}

/// The version that the row of the addon `m` shows: the display name of
/// the first of its latest files, and the empty text where it has none.
pub open spec fn shown_version(m: Mod) -> Seq<char> {
    if m.latest_files@.len() > 0 {
        m.latest_files@[0].display_name@
    } else {
        Seq::empty()
    }
}

/// The row of the addon `m`.
pub open spec fn data_row(m: Mod) -> RowModel {
    RowModel::Data {
        id: m.id,
        name: m.name@,
        version: shown_version(m),
        summary: m.summary@,
        download_count: m.download_count,
    }
}

/// The rows of the addons `mods`, in order.
pub open spec fn data_rows(mods: Seq<Mod>) -> Seq<RowModel> {
    Seq::new(mods.len(), |i: int| data_row(mods[i]))
}

/// The fault of an operation on a table. No operation on a table fails: the
/// type stands in the results of those that callers handle as they handle
/// operations that may.
#[derive(Debug, Clone, Copy, PartialEq, Eq, Structural)]
pub struct TableError {}

impl TableError {
    /// What the fault says to the user.
    pub fn message(&self) -> (text: String)
        ensures
            text@ == "the table could not be filled"@,
    {
        "the table could not be filled".to_owned()
    }
}

/// Whether the text `a` comes before the text `b`, or is `b`: texts are
/// ordered character by character, by the numbers of the characters, and a
/// text comes after each of its beginnings.
pub open spec fn text_le(a: Seq<char>, b: Seq<char>) -> bool
    decreases a.len(),
{
    if a.len() == 0 {
        true
    } else if b.len() == 0 {
        false
    } else if a[0] as u32 != b[0] as u32 {
        (a[0] as u32) < (b[0] as u32)
    } else {
        text_le(a.skip(1), b.skip(1))
    }
}

/// The number of rows at the start of `rows` whose name comes before
/// `name`, or is `name`.
pub open spec fn insertion_point(rows: Seq<RowModel>, name: Seq<char>) -> int
    decreases rows.len(),
{
    if rows.len() > 0 && text_le(rows[0].name(), name) {
        1 + insertion_point(rows.skip(1), name)
    } else {
        0
    }
}

/// The rows `rows` ordered by name, rows of one name in the order in which
/// they come in `rows`: each row in turn is set behind the rows set before
/// it whose names do not come after its own.
pub open spec fn sorted_by_name(rows: Seq<RowModel>) -> Seq<RowModel>
    decreases rows.len(),
{
    if rows.len() == 0 {
        Seq::empty()
    } else {
        let sorted = sorted_by_name(rows.drop_last());
        sorted.insert(insertion_point(sorted, rows.last().name()), rows.last())
    }
}

/// Of two texts one comes before the other, or they are one text.
pub proof fn lemma_text_le_total(a: Seq<char>, b: Seq<char>)
    ensures
        text_le(a, b) || text_le(b, a),
    decreases a.len(),
{
    if a.len() > 0 && b.len() > 0 && a[0] as u32 == b[0] as u32 {
        lemma_text_le_total(a.skip(1), b.skip(1));
    }
}

/// The order of texts is transitive.
pub proof fn lemma_text_le_transitive(a: Seq<char>, b: Seq<char>, c: Seq<char>)
    requires
        text_le(a, b),
        text_le(b, c),
    ensures
        text_le(a, c),
    decreases a.len(),
{
    if a.len() > 0 && b.len() > 0 && c.len() > 0 && a[0] as u32 == b[0] as u32 && b[0] as u32
        == c[0] as u32 {
        lemma_text_le_transitive(a.skip(1), b.skip(1), c.skip(1));
    }
}

/// Rows are ordered by name when no row comes before one whose name comes
/// before its own.
pub open spec fn ordered_by_name(rows: Seq<RowModel>) -> bool {
    forall|i: int, j: int|
        0 <= i < j < rows.len() ==> text_le((#[trigger] rows[i]).name(), (#[trigger] rows[j]).name())
}

/// The insertion point stands behind names that do not come after `name`,
/// and before one that does.
pub proof fn lemma_insertion_point(rows: Seq<RowModel>, name: Seq<char>)
    ensures
        0 <= insertion_point(rows, name) <= rows.len(),
        forall|i: int|
            0 <= i < insertion_point(rows, name) ==> text_le((#[trigger] rows[i]).name(), name),
        insertion_point(rows, name) < rows.len() ==> !text_le(
            rows[insertion_point(rows, name)].name(),
            name,
        ),
    decreases rows.len(),
{
    if rows.len() > 0 && text_le(rows[0].name(), name) {
        let rest = rows.skip(1);
        lemma_insertion_point(rest, name);
        let p = insertion_point(rest, name);
        assert forall|i: int| 0 <= i < p + 1 implies text_le((#[trigger] rows[i]).name(), name) by {
            if i > 0 {
                assert(rows[i] == rest[i - 1]);
            }
        }
        if p < rest.len() {
            assert(rows[p + 1] == rest[p]);
        }
    }
}

/// The rows ordered by name are ordered by name.
pub proof fn lemma_sorted_is_ordered(rows: Seq<RowModel>)
    ensures
        ordered_by_name(sorted_by_name(rows)),
        sorted_by_name(rows).len() == rows.len(),
    decreases rows.len(),
{
    if rows.len() > 0 {
        let sorted = sorted_by_name(rows.drop_last());
        let row = rows.last();
        let p = insertion_point(sorted, row.name());
        lemma_sorted_is_ordered(rows.drop_last());
        lemma_insertion_point(sorted, row.name());
        let after = sorted.insert(p, row);
        assert forall|i: int, j: int| 0 <= i < j < after.len() implies text_le(
            (#[trigger] after[i]).name(),
            (#[trigger] after[j]).name(),
        ) by {
            if j < p {
                assert(after[i] == sorted[i] && after[j] == sorted[j]);
            } else if j == p {
                assert(after[i] == sorted[i]);
            } else if i == p {
                assert(after[j] == sorted[j - 1]);
                lemma_text_le_total(sorted[p].name(), row.name());
                if j - 1 > p {
                    assert(text_le(sorted[p].name(), sorted[j - 1].name()));
                    lemma_text_le_transitive(row.name(), sorted[p].name(), sorted[j - 1].name());
                }
            } else if i < p {
                assert(after[i] == sorted[i] && after[j] == sorted[j - 1]);
            } else {
                assert(after[i] == sorted[i - 1] && after[j] == sorted[j - 1]);
            }
        }
    }
}

/// The rows ordered by name are the rows given, each as often as it was given.
pub proof fn lemma_sorted_is_permutation(rows: Seq<RowModel>)
    ensures
        sorted_by_name(rows).to_multiset() == rows.to_multiset(),
    decreases rows.len(),
{
    broadcast use vstd::seq_lib::group_to_multiset_ensures;

    if rows.len() > 0 {
        let sorted = sorted_by_name(rows.drop_last());
        let row = rows.last();
        let p = insertion_point(sorted, row.name());
        lemma_sorted_is_permutation(rows.drop_last());
        lemma_insertion_point(sorted, row.name());
        let after = sorted.insert(p, row);
        assert(after.remove(p) =~= sorted);
        assert(after[p] == row);
        assert(after.contains(row));
        assert(after.to_multiset() =~= sorted.to_multiset().insert(row));
        assert(rows =~= rows.drop_last().push(row));
        assert(rows.to_multiset() =~= rows.drop_last().to_multiset().insert(row));
    } else {
        assert(sorted_by_name(rows) =~= rows);
    }
}

/// Rows of one name keep their order: ordering the rows by name, a row set
/// later never comes before a row set earlier whose name is its own.
pub proof fn lemma_insertion_is_behind_equal_names(rows: Seq<RowModel>, name: Seq<char>, i: int)
    requires
        ordered_by_name(rows),
        0 <= i < rows.len(),
        rows[i].name() == name,
    ensures
        i < insertion_point(rows, name),
{
    lemma_insertion_point(rows, name);
    let p = insertion_point(rows, name);
    if i >= p {
        assert(text_le(name, name)) by {
            lemma_text_le_total(name, name);
        }
        if i > p {
            assert(text_le(rows[p].name(), rows[i].name()));
        }
    }
}

fn name_chars(row: &ModRow) -> (r: Vec<char>)
    ensures
        r@ == row@.name(),
{
    match row {
        ModRow::Header { name, .. } => to_chars(name.as_str()),
        ModRow::Data { name, .. } => to_chars(name.as_str()),
    }
}

fn text_not_after(a: &Vec<char>, b: &Vec<char>) -> (r: bool)
    ensures
        r == text_le(a@, b@),
{
    let mut i: usize = 0;
    assert(a@.skip(0) =~= a@);
    assert(b@.skip(0) =~= b@);
    while i < a.len()
        invariant
            i <= a.len(),
            i <= b.len(),
            text_le(a@, b@) == text_le(a@.skip(i as int), b@.skip(i as int)),
        decreases a.len() - i,
    {
        if i >= b.len() {
            return false;
        }
        if a[i] as u32 != b[i] as u32 {
            return (a[i] as u32) < (b[i] as u32);
        }
        assert(a@.skip(i as int).skip(1) =~= a@.skip(i + 1));
        assert(b@.skip(i as int).skip(1) =~= b@.skip(i + 1));
        i += 1;
    }
    true
}

fn row_not_after(rows: &Vec<ModRow>, at: usize, name: &Vec<char>) -> (r: bool)
    ensures
        r == (at < rows.len() && text_le(rows[at as int]@.name(), name@)),
{
    if at < rows.len() {
        let other = name_chars(&rows[at]);
        text_not_after(&other, name)
    } else {
        false
    }
}

fn sort_rows(rows: Vec<ModRow>) -> (sorted: Vec<ModRow>)
    ensures
        views(sorted@) == sorted_by_name(views(rows@)),
{
    let ghost all = views(rows@);
    let mut pending = rows;
    let mut sorted: Vec<ModRow> = Vec::new();
    let ghost mut k: int = 0;
    assert(all.take(0) =~= Seq::<RowModel>::empty());
    assert(views(sorted@) =~= Seq::<RowModel>::empty());
    assert(all.skip(0) =~= all);
    while pending.len() > 0
        invariant
            0 <= k <= all.len(),
            views(pending@) == all.skip(k),
            views(sorted@) == sorted_by_name(all.take(k)),
        decreases pending.len(),
    {
        let ghost waiting = views(pending@);
        assert(waiting.len() == pending.len());
        let row = pending.remove(0);
        assert(row@ == waiting[0]);
        assert(views(pending@) =~= waiting.skip(1));
        assert(waiting.skip(1) =~= all.skip(k + 1));
        let name = name_chars(&row);
        let ghost before = views(sorted@);
        let mut at: usize = 0;
        assert(before.skip(0) =~= before);
        while row_not_after(&sorted, at, &name)
            invariant
                at <= sorted.len(),
                before == views(sorted@),
                insertion_point(before, name@) == at + insertion_point(
                    before.skip(at as int),
                    name@,
                ),
            decreases sorted.len() - at,
        {
            assert(before.skip(at as int)[0] == sorted[at as int]@);
            assert(before.skip(at as int).skip(1) =~= before.skip(at + 1));
            at += 1;
        }
        assert(insertion_point(before.skip(at as int), name@) == 0) by {
            if at < sorted.len() {
                assert(before.skip(at as int)[0] == sorted[at as int]@);
            }
        }
        assert(at == insertion_point(before, name@));
        sorted.insert(at, row);
        assert(views(sorted@) =~= before.insert(at as int, row@));
        proof {
            assert(all.take(k + 1).drop_last() =~= all.take(k));
            assert(all.take(k + 1).last() == all[k]);
            k = k + 1;
        }
    }
    assert(all.take(all.len() as int) =~= all);
    sorted
}

/// A table of addons: rows under each other, each followed by a rule.
#[derive(Debug)]
pub struct ModTable {
    rows: Vec<ModRow>,
}

impl View for ModTable {
    type V = Seq<RowModel>;

    closed spec fn view(&self) -> Seq<RowModel> {
        views(self.rows@)
    }
}

/// A rule of `n` hyphens.
pub open spec fn hyphens(n: nat) -> Seq<char> {
    Seq::new(n, |i: int| '-')
}

/// The rule under each row: for each column a run of hyphens two longer
/// than the column is wide, between pipes.
pub open spec fn rule_line() -> Seq<char> {
    seq!['|'] + hyphens((ID_WIDTH + 2) as nat).push('|') + hyphens((NAME_WIDTH + 2) as nat).push('|')
        + hyphens((VERSION_WIDTH + 2) as nat).push('|') + hyphens((SUMMARY_WIDTH + 2) as nat).push(
        '|',
    ) + hyphens((COUNT_WIDTH + 2) as nat).push('|')
}

/// The lines of a table with the rows `rows`: a rule, then each row
/// followed by a rule, each of them ending in a line feed.
pub open spec fn table_text(rows: Seq<RowModel>) -> Seq<Seq<char>> {
    Seq::new(
        1 + 2 * rows.len(),
        |i: int|
            if i % 2 == 0 {
                rule_line().push('\n')
            } else {
                row_text(rows[i / 2]).push('\n')
            },
    )
}

fn push_hyphens(out: &mut Vec<char>, n: usize)
    ensures
        final(out)@ == old(out)@ + hyphens(n as nat).push('|'),
{
    let mut k: usize = 0;
    assert(out@ =~= old(out)@ + hyphens(0));
    while k < n
        invariant
            k <= n,
            out@ == old(out)@ + hyphens(k as nat),
        decreases n - k,
    {
        out.push('-');
        assert(out@ =~= old(out)@ + hyphens((k + 1) as nat));
        k += 1;
    }
    out.push('|');
    assert(out@ =~= old(out)@ + hyphens(n as nat).push('|'));
}

fn rule_chars() -> (out: Vec<char>)
    ensures
        out@ == rule_line(),
{
    let mut out: Vec<char> = Vec::new();
    out.push('|');
    assert(out@ =~= seq!['|']);
    push_hyphens(&mut out, ID_WIDTH + 2);
    push_hyphens(&mut out, NAME_WIDTH + 2);
    push_hyphens(&mut out, VERSION_WIDTH + 2);
    push_hyphens(&mut out, SUMMARY_WIDTH + 2);
    push_hyphens(&mut out, COUNT_WIDTH + 2);
    out
}

impl ModTable {
    /// A table without rows.
    pub fn new() -> (table: ModTable)
        ensures
            table@ == Seq::<RowModel>::empty(),
    {
        let table = ModTable { rows: Vec::new() };
        assert(table@ =~= Seq::<RowModel>::empty());
        table
    }

    /// Adds `row` under the rows of the table.
    pub fn add_row(&mut self, row: ModRow)
        ensures
            final(self)@ == old(self)@.push(row@),
    {
        self.rows.push(row);
        assert(self@ =~= old(self)@.push(row@));
    }

    fn add_header(&mut self)
        ensures
            final(self)@ == old(self)@.push(header_row()),
    {
        self.add_row(
            ModRow::new_header("Mod ID", "Name", "Version/Display Name", "Summary", "Download Count"),
        );
    }

    /// Adds the titles and a row for each addon of a search, in the order
    /// of `mods`. Never fails: an addon without a latest file shows no
    /// version.
    pub fn populate_mods_table(&mut self, mods: Vec<Mod>) -> (r: Result<(), TableError>)
        ensures
            r is Ok,
            final(self)@ == old(self)@.push(header_row()) + data_rows(mods@),
    {
        self.add_header();
        let ghost start = self@;
        let mut k: usize = 0;
        assert(start + data_rows(mods@).take(0) =~= start);
        while k < mods.len()
            invariant
                k <= mods.len(),
                self@ == start + data_rows(mods@).take(k as int),
            decreases mods.len() - k,
        {
            let m = &mods[k];
            let row = if m.latest_files.len() > 0 {
                ModRow::new_data(
                    m.id,
                    m.name.as_str(),
                    m.latest_files[0].display_name.as_str(),
                    m.summary.as_str(),
                    m.download_count,
                )
            } else {
                ModRow::new_data(m.id, m.name.as_str(), "", m.summary.as_str(), m.download_count)
            };
            assert(row@ == data_rows(mods@)[k as int]) by {
                reveal_strlit("");
                assert(""@ =~= Seq::<char>::empty());
            }
            self.add_row(row);
            assert(self@ =~= start + data_rows(mods@).take(k + 1));
            k += 1;
        }
        assert(data_rows(mods@).take(mods.len() as int) =~= data_rows(mods@));
        Ok(())
    }

    /// Adds the titles and the rows `mods`, ordered by name; rows of one
    /// name keep the order in which they came. Never fails.
    pub fn populate_installed_mods_table(&mut self, mods: Vec<ModRow>) -> (r: Result<
        (),
        TableError,
    >)
        ensures
            r is Ok,
            final(self)@ == old(self)@.push(header_row()) + sorted_by_name(views(mods@)),
    {
        self.add_header();
        let ghost start = self@;
        let ghost all = sorted_by_name(views(mods@));
        let mut pending = sort_rows(mods);
        let ghost mut k: int = 0;
        assert(start + all.take(0) =~= start);
        assert(all.skip(0) =~= all);
        while pending.len() > 0
            invariant
                0 <= k <= all.len(),
                views(pending@) == all.skip(k),
                self@ == start + all.take(k),
            decreases pending.len(),
        {
            let ghost waiting = views(pending@);
            assert(waiting.len() == pending.len());
            let row = pending.remove(0);
            assert(row@ == waiting[0]);
            assert(views(pending@) =~= waiting.skip(1));
            assert(waiting.skip(1) =~= all.skip(k + 1));
            self.add_row(row);
            assert(self@ =~= start + all.take(k + 1));
            proof {
                k = k + 1;
            }
        }
        assert(all.take(all.len() as int) =~= all);
        Ok(())
    }

    /// The lines of the table, each with its line feed: a rule, then each
    /// row followed by a rule.
    pub fn format_table(&self) -> (lines: Vec<String>)
        ensures
            views(lines@) == table_text(self@),
    {
        let mut rule = rule_chars();
        rule.push('\n');
        let mut lines: Vec<String> = Vec::new();
        lines.push(from_chars(&rule));
        let mut i: usize = 0;
        while i < self.rows.len()
            invariant
                i <= self.rows.len(),
                rule@ == rule_line().push('\n'),
                lines.len() == 1 + 2 * i,
                forall|k: int| 0 <= k < lines.len() ==> (#[trigger] lines[k])@ == table_text(self@)[k],
            decreases self.rows.len() - i,
        {
            let mut text = to_chars(self.rows[i].format_row().as_str());
            text.push('\n');
            assert(self@[i as int] == self.rows[i as int]@);
            lines.push(from_chars(&text));
            lines.push(from_chars(&rule));
            i += 1;
        }
        assert(views(lines@) =~= table_text(self@));
        lines
    }
}

} // verus!
