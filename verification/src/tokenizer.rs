//! Splitting a command line into arguments.
//!
//! White space separates arguments. Double quotes group: inside them white
//! space is kept, and a backslash starts an escape. The quote marks
//! themselves never reach an argument, and no argument is empty.

use crate::text::{blank, from_chars_all, is_whitespace, to_chars, views, whitespace};
use vstd::prelude::*;

verus! {

/// What a backslash followed by `c` stands for inside quotes: the named
/// character for `n`, `t`, `r`, `\` and `"`, and otherwise the backslash and
/// `c` as they are.
pub open spec fn escape_text(c: char) -> Seq<char> {
    if c == 'n' {
        seq!['\n']
    } else if c == 't' {
        seq!['\t']
    } else if c == 'r' {
        seq!['\r']
    } else if c == '\\' {
        seq!['\\']
    } else if c == '"' {
        seq!['"']
    } else {
        seq!['\\', c]
    }
}

/// The argument that ends here, if any characters were gathered for it.
pub open spec fn flush(current: Seq<char>) -> Seq<Seq<char>> {
    if current.len() > 0 {
        seq![current]
    } else {
        Seq::empty()
    }
}

/// The arguments still to come when `rest` is left to read, `quoted` says
/// whether the reader stands inside quotes, and `current` holds the
/// characters gathered for the argument being read.
///
/// A backslash that ends the input inside quotes is dropped.
pub open spec fn scan(rest: Seq<char>, quoted: bool, current: Seq<char>) -> Seq<Seq<char>>
    decreases rest.len(),
{
    if rest.len() == 0 {
        flush(current)
    } else if rest[0] == '"' {
        scan(rest.skip(1), !quoted, current)
    } else if !quoted && whitespace(rest[0]) {
        flush(current) + scan(rest.skip(1), false, Seq::empty())
    } else if quoted && rest[0] == '\\' {
        if rest.len() >= 2 {
            scan(rest.skip(2), true, current + escape_text(rest[1]))
        } else {
            flush(current)
        }
    } else {
        scan(rest.skip(1), quoted, current.push(rest[0]))
    }
}

/// The arguments of the command line `line`.
pub open spec fn tokens(line: Seq<char>) -> Seq<Seq<char>> {
    scan(line, false, Seq::empty())
}

/// Whether the reader stands inside quotes after reading `text`, having
/// started inside them or not as `quoted` says. A backslash that ends `text`
/// inside quotes leaves the reader there.
pub open spec fn quoted_after(text: Seq<char>, quoted: bool) -> bool
    decreases text.len(),
{
    if text.len() == 0 {
        quoted
    } else if text[0] == '"' {
        quoted_after(text.skip(1), !quoted)
    } else if quoted && text[0] == '\\' {
        if text.len() >= 2 {
            quoted_after(text.skip(2), true)
        } else {
            true
        }
    } else {
        quoted_after(text.skip(1), quoted)
    }
}

/// A line has balanced quotes when reading it ends outside quotes.
pub open spec fn balanced(line: Seq<char>) -> bool {
    !quoted_after(line, false)
}

/// A text is plain when it holds neither a double quote nor a backslash.
pub open spec fn plain(text: Seq<char>) -> bool {
    forall|i: int| 0 <= i < text.len() ==> #[trigger] text[i] != '"' && text[i] != '\\'
}

/// Splits a command line into its arguments.
pub fn parse_quoted_args(input: &str) -> (args: Vec<String>)
    ensures
        views(args@) == tokens(input@),
{
    let line = to_chars(input);
    let n: usize = line.len();
    let mut done: Vec<Vec<char>> = Vec::new();
    let mut current: Vec<char> = Vec::new();
    let mut quoted: bool = false;
    let mut i: usize = 0;
    assert(line@.skip(0) =~= line@);
    assert(views(done@) =~= Seq::<Seq<char>>::empty());
    while i < n
        invariant
            n == line.len(),
            i <= n,
            tokens(line@) == views(done@) + scan(line@.skip(i as int), quoted, current@),
        decreases n - i,
    {
        let ghost rest = line@.skip(i as int);
        let c: char = line[i];
        assert(rest.len() > 0 && rest[0] == c);
        assert(rest.skip(1) =~= line@.skip(i + 1));
        if c == '"' {
            quoted = !quoted;
            i += 1;
        } else if !quoted && is_whitespace(c) {
            let ghost before = views(done@);
            let ghost ahead = scan(rest.skip(1), false, Seq::empty());
            let ghost ended = flush(current@);
            if current.len() > 0 {
                done.push(current);
                current = Vec::new();
            }
            assert(views(done@) =~= before + ended);
            assert(current@ =~= Seq::<char>::empty());
            assert(before + (ended + ahead) =~= (before + ended) + ahead);
            i += 1;
        } else if quoted && c == '\\' {
            if i + 1 < n {
                let next: char = line[i + 1];
                assert(rest[1] == next);
                assert(rest.skip(2) =~= line@.skip(i + 2));
                push_escape(&mut current, next);
                i += 2;
            } else {
                assert(rest.len() == 1);
                assert(line@.skip(i + 1).len() == 0);
                i += 1;
            }
        } else {
            current.push(c);
            i += 1;
        }
    }
    assert(line@.skip(n as int).len() == 0);
    let ghost before = views(done@);
    let ghost ended = flush(current@);
    if current.len() > 0 {
        done.push(current);
    }
    assert(views(done@) =~= before + ended);
    from_chars_all(&done)
}

/// Appends to `current` what a backslash followed by `c` stands for.
fn push_escape(current: &mut Vec<char>, c: char)
    ensures
        final(current)@ == old(current)@ + escape_text(c),
{
    if c == 'n' {
        current.push('\n');
    } else if c == 't' {
        current.push('\t');
    } else if c == 'r' {
        current.push('\r');
    } else if c == '\\' {
        current.push('\\');
    } else if c == '"' {
        current.push('"');
    } else {
        current.push('\\');
        current.push(c);
    }
    assert(current@ =~= old(current)@ + escape_text(c));
}

/// No argument is empty.
pub proof fn lemma_no_argument_is_empty(rest: Seq<char>, quoted: bool, current: Seq<char>, i: int)
    requires
        0 <= i < scan(rest, quoted, current).len(),
    ensures
        scan(rest, quoted, current)[i].len() > 0,
    decreases rest.len(),
{
    if rest.len() == 0 {
    } else if rest[0] == '"' {
        lemma_no_argument_is_empty(rest.skip(1), !quoted, current, i);
    } else if !quoted && whitespace(rest[0]) {
        if i >= flush(current).len() {
            lemma_no_argument_is_empty(rest.skip(1), false, Seq::empty(), i - flush(current).len());
        }
    } else if quoted && rest[0] == '\\' {
        if rest.len() >= 2 {
            lemma_no_argument_is_empty(rest.skip(2), true, current + escape_text(rest[1]), i);
        }
    } else {
        lemma_no_argument_is_empty(rest.skip(1), quoted, current.push(rest[0]), i);
    }
}

/// A blank line has no arguments.
pub proof fn lemma_blank_line_has_no_arguments(line: Seq<char>)
    requires
        blank(line),
    ensures
        tokens(line).len() == 0,
    decreases line.len(),
{
    if line.len() > 0 {
        assert(whitespace(line[0]));
        assert(blank(line.skip(1))) by {
            assert forall|i: int| 0 <= i < line.skip(1).len() implies whitespace(
                #[trigger] line.skip(1)[i],
            ) by {
                assert(line.skip(1)[i] == line[i + 1]);
            }
        }
        lemma_blank_line_has_no_arguments(line.skip(1));
    }
}

/// Outside quotes no argument holds white space: a line without a double
/// quote has arguments without white space.
pub proof fn lemma_unquoted_arguments_hold_no_whitespace(
    rest: Seq<char>,
    current: Seq<char>,
    i: int,
    k: int,
)
    requires
        forall|j: int| 0 <= j < rest.len() ==> #[trigger] rest[j] != '"',
        forall|j: int| 0 <= j < current.len() ==> !whitespace(#[trigger] current[j]),
        0 <= i < scan(rest, false, current).len(),
        0 <= k < scan(rest, false, current)[i].len(),
    ensures
        !whitespace(scan(rest, false, current)[i][k]),
    decreases rest.len(),
{
    if rest.len() == 0 {
    } else {
        assert(rest[0] != '"');
        assert forall|j: int| 0 <= j < rest.skip(1).len() implies #[trigger] rest.skip(1)[j]
            != '"' by {
            assert(rest.skip(1)[j] == rest[j + 1]);
        }
        if whitespace(rest[0]) {
            if i >= flush(current).len() {
                lemma_unquoted_arguments_hold_no_whitespace(
                    rest.skip(1),
                    Seq::empty(),
                    i - flush(current).len(),
                    k,
                );
            }
        } else {
            lemma_unquoted_arguments_hold_no_whitespace(
                rest.skip(1),
                current.push(rest[0]),
                i,
                k,
            );
        }
    }
}

/// White space outside quotes ends the argument being read: if reading
/// `head` ends outside quotes and `c` is white space, the arguments of
/// `head`, `c`, `tail` are those of `head` followed by those of `tail`,
/// whatever was gathered before `head`.
pub proof fn lemma_scan_splits_at_whitespace(
    head: Seq<char>,
    c: char,
    tail: Seq<char>,
    quoted: bool,
    current: Seq<char>,
)
    requires
        !quoted_after(head, quoted),
        whitespace(c),
    ensures
        scan(head + seq![c] + tail, quoted, current) == scan(head, quoted, current) + scan(
            tail,
            false,
            Seq::empty(),
        ),
    decreases head.len(),
{
    let whole = head + seq![c] + tail;
    if head.len() == 0 {
        assert(whole.skip(1) =~= tail);
        assert(flush(current) + scan(tail, false, Seq::empty()) =~= scan(head, quoted, current)
            + scan(tail, false, Seq::empty()));
    } else {
        assert(whole[0] == head[0]);
        assert(whole.skip(1) =~= head.skip(1) + seq![c] + tail);
        if head[0] == '"' {
            lemma_scan_splits_at_whitespace(head.skip(1), c, tail, !quoted, current);
        } else if !quoted && whitespace(head[0]) {
            lemma_scan_splits_at_whitespace(head.skip(1), c, tail, false, Seq::empty());
            let first = flush(current);
            let middle = scan(head.skip(1), false, Seq::empty());
            let last = scan(tail, false, Seq::empty());
            assert(first + (middle + last) =~= (first + middle) + last);
        } else if quoted && head[0] == '\\' {
            assert(head.len() >= 2);
            assert(whole[1] == head[1]);
            assert(whole.skip(2) =~= head.skip(2) + seq![c] + tail);
            lemma_scan_splits_at_whitespace(
                head.skip(2),
                c,
                tail,
                true,
                current + escape_text(head[1]),
            );
        } else {
            lemma_scan_splits_at_whitespace(head.skip(1), c, tail, quoted, current.push(head[0]));
        }
    }
}

/// Arguments are split on white space outside quotes: for a line `head`
/// with balanced quotes and a white-space character `c`, the arguments of
/// `head`, `c`, `tail` are the arguments of `head` followed by the arguments
/// of `tail`.
pub proof fn lemma_whitespace_outside_quotes_splits(head: Seq<char>, c: char, tail: Seq<char>)
    requires
        balanced(head),
        whitespace(c),
    ensures
        tokens(head + seq![c] + tail) == tokens(head) + tokens(tail),
{
    lemma_scan_splits_at_whitespace(head, c, tail, false, Seq::empty());
}

/// Inside quotes every character of a plain text is kept as it is, white
/// space included.
pub proof fn lemma_plain_text_in_quotes(inner: Seq<char>, tail: Seq<char>, current: Seq<char>)
    requires
        plain(inner),
    ensures
        scan(inner + tail, true, current) == scan(tail, true, current + inner),
    decreases inner.len(),
{
    if inner.len() == 0 {
        assert(inner + tail =~= tail);
        assert(current + inner =~= current);
    } else {
        let whole = inner + tail;
        assert(whole[0] == inner[0]);
        assert(whole.skip(1) =~= inner.skip(1) + tail);
        assert(plain(inner.skip(1))) by {
            assert forall|i: int| 0 <= i < inner.skip(1).len() implies #[trigger] inner.skip(1)[i]
                != '"' && inner.skip(1)[i] != '\\' by {
                assert(inner.skip(1)[i] == inner[i + 1]);
            }
        }
        lemma_plain_text_in_quotes(inner.skip(1), tail, current.push(inner[0]));
        assert(current.push(inner[0]) + inner.skip(1) =~= current + inner);
    }
}

/// A quoted span adds its text to the argument being read and ends nothing:
/// white space inside it is preserved.
pub proof fn lemma_quoted_span_is_kept(inner: Seq<char>, tail: Seq<char>, current: Seq<char>)
    requires
        plain(inner),
    ensures
        scan(seq!['"'] + inner + seq!['"'] + tail, false, current) == scan(
            tail,
            false,
            current + inner,
        ),
{
    let whole = seq!['"'] + inner + seq!['"'] + tail;
    assert(whole[0] == '"');
    assert(whole.skip(1) =~= inner + (seq!['"'] + tail));
    lemma_plain_text_in_quotes(inner, seq!['"'] + tail, current);
    let closing = seq!['"'] + tail;
    assert(closing[0] == '"');
    assert(closing.skip(1) =~= tail);
}

/// A line that is one quoted span of plain text has that text as its only
/// argument, or no argument when the text is empty.
pub proof fn lemma_quoted_line_is_one_argument(inner: Seq<char>)
    requires
        plain(inner),
    ensures
        tokens(seq!['"'] + inner + seq!['"']) == flush(inner),
{
    let empty = Seq::<char>::empty();
    lemma_quoted_span_is_kept(inner, empty, empty);
    assert(seq!['"'] + inner + seq!['"'] + empty =~= seq!['"'] + inner + seq!['"']);
    assert(empty + inner =~= inner);
}

/// Inside quotes a backslash and the character after it are read as one
/// escape: the named character where the escape is known, the two characters
/// as they are where it is not.
pub proof fn lemma_escape_in_quotes(c: char, tail: Seq<char>, current: Seq<char>)
    ensures
        scan(seq!['\\', c] + tail, true, current) == scan(tail, true, current + escape_text(c)),
{
    let whole = seq!['\\', c] + tail;
    assert(whole[0] == '\\');
    assert(whole[1] == c);
    assert(whole.skip(2) =~= tail);
}

/// A quoted line with one escape between two plain texts has one argument:
/// the first text, what the escape stands for, and the second text.
pub proof fn lemma_quoted_escape_is_read(before: Seq<char>, c: char, after: Seq<char>)
    requires
        plain(before),
        plain(after),
    ensures
        tokens(seq!['"'] + before + seq!['\\', c] + after + seq!['"']) == seq![
            before + escape_text(c) + after,
        ],
{
    let empty = Seq::<char>::empty();
    let whole = seq!['"'] + before + seq!['\\', c] + after + seq!['"'];
    let closing = seq!['"'];
    let escaped = seq!['\\', c] + (after + closing);
    let text = before + escape_text(c) + after;
    assert(whole[0] == '"');
    assert(whole.skip(1) =~= before + escaped);
    assert(tokens(whole) == scan(before + escaped, true, empty));
    lemma_plain_text_in_quotes(before, escaped, empty);
    assert(empty + before =~= before);
    lemma_escape_in_quotes(c, after + closing, before);
    lemma_plain_text_in_quotes(after, closing, before + escape_text(c));
    assert(tokens(whole) == scan(closing, true, text));
    assert(closing[0] == '"');
    assert(closing.skip(1) =~= empty);
    assert(scan(closing, true, text) == scan(empty, false, text));
    assert(escape_text(c).len() > 0);
    assert(text.len() > 0);
}

} // verus!
