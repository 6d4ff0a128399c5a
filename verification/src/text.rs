//! Text primitives over sequences of characters: whitespace, trimming,
//! splitting into words and lines, searching, decimal numbers and padding.
//!
//! Every function works on `Vec<char>` and is specified over `Seq<char>`;
//! [`to_chars`] and [`from_chars`] convert at the edges.

use vstd::prelude::*;

verus! {

/// `String::push` appends one character to the string.
pub assume_specification[ String::push ](s: &mut String, c: char)
    ensures
        final(s)@ == old(s)@.push(c),
;

/// The characters of `s`, in order.
pub fn to_chars(s: &str) -> (v: Vec<char>)
    ensures
        v@ == s@,
{
    broadcast use vstd::string::group_string_axioms;

    let mut v: Vec<char> = Vec::new();
    let chars = s.chars();
    for c in it: chars
        invariant
            it.seq() == s@,
            v@ == s@.take(it.index()),
    {
        v.push(c);
    }
    v
}

/// The string made of the characters of `v`, in order.
pub fn from_chars(v: &Vec<char>) -> (s: String)
    ensures
        s@ == v@,
{
    let mut s = String::new();
    let mut i: usize = 0;
    while i < v.len()
        invariant
            i <= v.len(),
            s@ == v@.take(i as int),
        decreases v.len() - i,
    {
        s.push(v[i]);
        i += 1;
    }
    s
}

/// The view of each element of `items`, in order.
pub open spec fn views<T: View>(items: Seq<T>) -> Seq<T::V> {
    Seq::new(items.len(), |i: int| items[i]@)
}

/// The strings made of each element of `items`, in order.
pub fn from_chars_all(items: &Vec<Vec<char>>) -> (out: Vec<String>)
    ensures
        views(out@) == views(items@),
{
    let mut out: Vec<String> = Vec::new();
    let mut i: usize = 0;
    while i < items.len()
        invariant
            i <= items.len(),
            out.len() == i,
            forall|k: int| 0 <= k < i ==> #[trigger] out[k]@ == items[k]@,
        decreases items.len() - i,
    {
        out.push(from_chars(&items[i]));
        i += 1;
    }
    assert(views(out@) =~= views(items@));
    out
}

/// A copy of the characters of `s` from index `from` up to, not including, `to`.
pub(crate) fn copy_range(s: &Vec<char>, from: usize, to: usize) -> (r: Vec<char>)
    requires
        from <= to <= s.len(),
    ensures
        r@ == s@.subrange(from as int, to as int),
{
    let mut r: Vec<char> = Vec::new();
    let mut i: usize = from;
    while i < to
        invariant
            from <= i <= to <= s.len(),
            r@ == s@.subrange(from as int, i as int),
        decreases to - i,
    {
        r.push(s[i]);
        i += 1;
    }
    r
}

/// Appends the characters of `tail` to `head`.
pub fn append_chars(head: &mut Vec<char>, tail: &Vec<char>)
    ensures
        final(head)@ == old(head)@ + tail@,
{
    let mut i: usize = 0;
    while i < tail.len()
        invariant
            i <= tail.len(),
            head@ == old(head)@ + tail@.take(i as int),
        decreases tail.len() - i,
    {
        head.push(tail[i]);
        i += 1;
    }
    assert(tail@.take(tail.len() as int) =~= tail@);
}

/// The text `before`, then `inner`, then `after`.
pub fn enclose(before: &str, inner: &str, after: &str) -> (r: String)
    ensures
        r@ == before@ + inner@ + after@,
{
    let mut out = to_chars(before);
    append_chars(&mut out, &to_chars(inner));
    append_chars(&mut out, &to_chars(after));
    from_chars(&out)
}

/// Whether two character vectors hold the same text.
pub fn same_chars(a: &Vec<char>, b: &Vec<char>) -> (r: bool)
    ensures
        r == (a@ == b@),
{
    if a.len() != b.len() {
        return false;
    }
    let mut i: usize = 0;
    while i < a.len()
        invariant
            a.len() == b.len(),
            i <= a.len(),
            a@.take(i as int) == b@.take(i as int),
        decreases a.len() - i,
    {
        if a[i] != b[i] {
            return false;
        }
        assert(a@.take(i + 1) =~= a@.take(i as int).push(a@[i as int]));
        assert(b@.take(i + 1) =~= b@.take(i as int).push(b@[i as int]));
        i += 1;
    }
    assert(a@.take(a.len() as int) =~= a@);
    assert(b@.take(b.len() as int) =~= b@);
    true
}

/// The characters that Unicode gives the property `White_Space`.
pub open spec fn whitespace(c: char) -> bool {
    let u = c as u32;
    ||| 0x09 <= u <= 0x0D
    ||| u == 0x20
    ||| u == 0x85
    ||| u == 0xA0
    ||| u == 0x1680
    ||| 0x2000 <= u <= 0x200A
    ||| u == 0x2028
    ||| u == 0x2029
    ||| u == 0x202F
    ||| u == 0x205F
    ||| u == 0x3000
}

/// Whether `c` is a white-space character.
pub fn is_whitespace(c: char) -> (r: bool)
    ensures
        r == whitespace(c),
{
    let u: u32 = c as u32;
    (0x09 <= u && u <= 0x0D) || u == 0x20 || u == 0x85 || u == 0xA0 || u == 0x1680 || (0x2000 <= u
        && u <= 0x200A) || u == 0x2028 || u == 0x2029 || u == 0x202F || u == 0x205F || u == 0x3000
}

/// A text is blank when it holds nothing but white space.
pub open spec fn blank(s: Seq<char>) -> bool {
    forall|i: int| 0 <= i < s.len() ==> whitespace(#[trigger] s[i])
}

/// Whether `s` holds nothing but white space.
pub fn is_blank(s: &Vec<char>) -> (r: bool)
    ensures
        r == blank(s@),
{
    let mut i: usize = 0;
    while i < s.len()
        invariant
            i <= s.len(),
            forall|k: int| 0 <= k < i ==> whitespace(#[trigger] s@[k]),
        decreases s.len() - i,
    {
        if !is_whitespace(s[i]) {
            return false;
        }
        i += 1;
    }
    true
}

/// `s` without its leading white space.
pub open spec fn trim_start(s: Seq<char>) -> Seq<char>
    decreases s.len(),
{
    if s.len() > 0 && whitespace(s[0]) {
        trim_start(s.skip(1))
    } else {
        s
    }
}

/// `s` without its trailing white space.
pub open spec fn trim_end(s: Seq<char>) -> Seq<char>
    decreases s.len(),
{
    if s.len() > 0 && whitespace(s.last()) {
        trim_end(s.drop_last())
    } else {
        s
    }
}

/// `s` without its leading and trailing white space.
pub open spec fn trimmed(s: Seq<char>) -> Seq<char> {
    trim_end(trim_start(s))
}

/// What is trimmed off at the start is white space: the text without its
/// leading white space is the text from some index on, before which every
/// character is white space.
pub proof fn lemma_trim_start_drops_whitespace(s: Seq<char>) -> (k: int)
    ensures
        0 <= k <= s.len(),
        trim_start(s) == s.skip(k),
        forall|i: int| 0 <= i < k ==> whitespace(#[trigger] s[i]),
    decreases s.len(),
{
    if s.len() > 0 && whitespace(s[0]) {
        let rest = s.skip(1);
        let k = lemma_trim_start_drops_whitespace(rest);
        assert(rest.skip(k) =~= s.skip(k + 1));
        assert forall|i: int| 0 <= i < k + 1 implies whitespace(#[trigger] s[i]) by {
            if i > 0 {
                assert(s[i] == rest[i - 1]);
            }
        }
        k + 1
    } else {
        assert(s.skip(0) =~= s);
        0
    }
}

/// A text of which nothing is left without its trailing white space is blank.
pub proof fn lemma_trim_end_of_blank(s: Seq<char>)
    ensures
        trim_end(s).len() == 0 <==> blank(s),
    decreases s.len(),
{
    if s.len() > 0 && whitespace(s.last()) {
        lemma_trim_end_of_blank(s.drop_last());
        if blank(s) {
            assert forall|i: int| 0 <= i < s.drop_last().len() implies whitespace(
                #[trigger] s.drop_last()[i],
            ) by {
                assert(s.drop_last()[i] == s[i]);
            }
        }
        if blank(s.drop_last()) {
            assert forall|i: int| 0 <= i < s.len() implies whitespace(#[trigger] s[i]) by {
                if i < s.len() - 1 {
                    assert(s[i] == s.drop_last()[i]);
                }
            }
        }
    } else if s.len() > 0 {
        assert(!whitespace(s[s.len() - 1]));
    }
}

/// A text is blank exactly when nothing is left of it without the white
/// space around it.
pub proof fn lemma_blank_is_trimmed_empty(s: Seq<char>)
    ensures
        blank(s) <==> trimmed(s).len() == 0,
{
    let k = lemma_trim_start_drops_whitespace(s);
    let rest = s.skip(k);
    lemma_trim_end_of_blank(rest);
    if blank(s) {
        assert forall|i: int| 0 <= i < rest.len() implies whitespace(#[trigger] rest[i]) by {
            assert(rest[i] == s[i + k]);
        }
    }
    if blank(rest) {
        assert forall|i: int| 0 <= i < s.len() implies whitespace(#[trigger] s[i]) by {
            if i >= k {
                assert(s[i] == rest[i - k]);
            }
        }
    }
}

/// `s` without its leading and trailing white space.
pub fn trim(s: &Vec<char>) -> (r: Vec<char>)
    ensures
        r@ == trimmed(s@),
{
    let n: usize = s.len();
    let mut i: usize = 0;
    assert(s@.skip(0) =~= s@);
    while i < n && is_whitespace(s[i])
        invariant
            n == s.len(),
            i <= n,
            trim_start(s@) == trim_start(s@.skip(i as int)),
        decreases n - i,
    {
        assert(s@.skip(i as int).skip(1) =~= s@.skip(i + 1));
        i += 1;
    }
    assert(trim_start(s@) == s@.skip(i as int));
    assert(s@.skip(i as int) =~= s@.subrange(i as int, n as int));
    let mut j: usize = n;
    while j > i && is_whitespace(s[j - 1])
        invariant
            n == s.len(),
            i <= j <= n,
            trimmed(s@) == trim_end(s@.subrange(i as int, j as int)),
        decreases j,
    {
        assert(s@.subrange(i as int, j as int).drop_last() =~= s@.subrange(i as int, j - 1));
        j -= 1;
    }
    copy_range(s, i, j)
}

/// Whether `s` holds exactly the text of `literal`.
pub fn text_is(s: &Vec<char>, literal: &str) -> (r: bool)
    ensures
        r == (s@ == literal@),
{
    let other = to_chars(literal);
    same_chars(s, &other)
}

/// Whether `s` begins with `prefix`.
pub fn starts_with(s: &Vec<char>, prefix: &Vec<char>) -> (r: bool)
    ensures
        r == prefix@.is_prefix_of(s@),
{
    if prefix.len() > s.len() {
        return false;
    }
    let mut i: usize = 0;
    while i < prefix.len()
        invariant
            prefix.len() <= s.len(),
            i <= prefix.len(),
            forall|k: int| 0 <= k < i ==> prefix@[k] == s@[k],
        decreases prefix.len() - i,
    {
        if prefix[i] != s[i] {
            assert(s@.subrange(0, prefix@.len() as int)[i as int] != prefix@[i as int]);
            return false;
        }
        i += 1;
    }
    assert(prefix@ =~= s@.subrange(0, prefix@.len() as int));
    true
}

/// Whether `s` ends with `suffix`.
pub fn ends_with(s: &Vec<char>, suffix: &Vec<char>) -> (r: bool)
    ensures
        r == suffix@.is_suffix_of(s@),
{
    if suffix.len() > s.len() {
        return false;
    }
    let from: usize = s.len() - suffix.len();
    let mut i: usize = 0;
    while i < suffix.len()
        invariant
            suffix.len() <= s.len(),
            from == s.len() - suffix.len(),
            i <= suffix.len(),
            forall|k: int| 0 <= k < i ==> suffix@[k] == s@[from + k],
        decreases suffix.len() - i,
    {
        if suffix[i] != s[from + i] {
            assert(s@.subrange(from as int, s@.len() as int)[i as int] != suffix@[i as int]);
            return false;
        }
        i += 1;
    }
    assert(suffix@ =~= s@.subrange(from as int, s@.len() as int));
    true
}

/// Whether `pattern` stands in `s` at index `at`.
pub open spec fn occurs_at(s: Seq<char>, at: int, pattern: Seq<char>) -> bool {
    &&& 0 <= at
    &&& at + pattern.len() <= s.len()
    &&& s.subrange(at, at + pattern.len()) == pattern
}

/// Whether `pattern` stands in `s` at index `at`.
pub fn matches_at(s: &Vec<char>, at: usize, pattern: &Vec<char>) -> (r: bool)
    ensures
        r == occurs_at(s@, at as int, pattern@),
{
    if at > s.len() || pattern.len() > s.len() - at {
        return false;
    }
    let mut i: usize = 0;
    while i < pattern.len()
        invariant
            at + pattern.len() <= s.len(),
            i <= pattern.len(),
            forall|k: int| 0 <= k < i ==> pattern@[k] == s@[at + k],
        decreases pattern.len() - i,
    {
        if pattern[i] != s[at + i] {
            assert(s@.subrange(at as int, at + pattern@.len())[i as int] != pattern@[i as int]);
            return false;
        }
        i += 1;
    }
    assert(pattern@ =~= s@.subrange(at as int, at + pattern@.len()));
    true
}

/// Whether `pattern` stands somewhere in `s`.
pub open spec fn contains_text(s: Seq<char>, pattern: Seq<char>) -> bool {
    exists|at: int| occurs_at(s, at, pattern)
}

/// Whether `pattern` stands somewhere in `s`.
pub fn contains(s: &Vec<char>, pattern: &Vec<char>) -> (r: bool)
    ensures
        r == contains_text(s@, pattern@),
{
    let mut at: usize = 0;
    while at < s.len()
        invariant
            at <= s.len(),
            forall|k: int| 0 <= k < at ==> !occurs_at(s@, k, pattern@),
        decreases s.len() - at,
    {
        if matches_at(s, at, pattern) {
            return true;
        }
        at += 1;
    }
    matches_at(s, at, pattern)
}

/// `s` with every occurrence of `pattern` taken out, found from left to
/// right without overlap. An empty pattern takes nothing out.
pub open spec fn without(s: Seq<char>, pattern: Seq<char>) -> Seq<char>
    decreases s.len(),
{
    if s.len() == 0 || pattern.len() == 0 {
        s
    } else if occurs_at(s, 0, pattern) {
        without(s.skip(pattern.len() as int), pattern)
    } else {
        seq![s[0]] + without(s.skip(1), pattern)
    }
}

/// `s` with every occurrence of `pattern` taken out.
pub fn remove_all(s: &Vec<char>, pattern: &Vec<char>) -> (r: Vec<char>)
    ensures
        r@ == without(s@, pattern@),
{
    let n: usize = s.len();
    let m: usize = pattern.len();
    if m == 0 {
        return copy_range(s, 0, n);
    }
    let mut r: Vec<char> = Vec::new();
    let mut i: usize = 0;
    assert(s@.skip(0) =~= s@);
    while i < n
        invariant
            n == s.len(),
            m == pattern.len(),
            m > 0,
            i <= n,
            without(s@, pattern@) == r@ + without(s@.skip(i as int), pattern@),
        decreases n - i,
    {
        let ghost rest = s@.skip(i as int);
        let found = matches_at(s, i, pattern);
        assert(found == occurs_at(rest, 0, pattern@)) by {
            if i + m <= n {
                assert(rest.subrange(0, m as int) =~= s@.subrange(i as int, i + m));
            }
        }
        if found {
            assert(rest.skip(m as int) =~= s@.skip(i + m));
            i += m;
        } else {
            assert(rest.skip(1) =~= s@.skip(i + 1));
            let ghost before = r@;
            r.push(s[i]);
            assert(r@ + without(rest.skip(1), pattern@) =~= before + (seq![rest[0]] + without(
                rest.skip(1),
                pattern@,
            )));
            i += 1;
        }
    }
    assert(r@ + without(s@.skip(n as int), pattern@) =~= r@);
    r
}

/// The pieces of `s` between occurrences of the character `separator`: one
/// more piece than there are separators.
pub open spec fn pieces(s: Seq<char>, separator: char, current: Seq<char>) -> Seq<Seq<char>>
    decreases s.len(),
{
    if s.len() == 0 {
        seq![current]
    } else if s[0] == separator {
        seq![current] + pieces(s.skip(1), separator, Seq::empty())
    } else {
        pieces(s.skip(1), separator, current.push(s[0]))
    }
}

/// There is always a first piece.
pub proof fn lemma_pieces_not_empty(s: Seq<char>, separator: char, current: Seq<char>)
    ensures
        pieces(s, separator, current).len() >= 1,
    decreases s.len(),
{
    if s.len() > 0 && s[0] != separator {
        lemma_pieces_not_empty(s.skip(1), separator, current.push(s[0]));
    }
}

/// The pieces of `s` between occurrences of the character `separator`.
pub fn split_on(s: &Vec<char>, separator: char) -> (r: Vec<Vec<char>>)
    ensures
        views(r@) == pieces(s@, separator, Seq::empty()),
{
    let n: usize = s.len();
    let mut done: Vec<Vec<char>> = Vec::new();
    let mut current: Vec<char> = Vec::new();
    let mut i: usize = 0;
    assert(s@.skip(0) =~= s@);
    assert(views(done@) =~= Seq::<Seq<char>>::empty());
    while i < n
        invariant
            n == s.len(),
            i <= n,
            pieces(s@, separator, Seq::empty()) == views(done@) + pieces(
                s@.skip(i as int),
                separator,
                current@,
            ),
        decreases n - i,
    {
        let ghost rest = s@.skip(i as int);
        assert(rest.skip(1) =~= s@.skip(i + 1));
        let c: char = s[i];
        if c == separator {
            let ghost before = views(done@);
            let ghost ahead = pieces(rest.skip(1), separator, Seq::empty());
            let ghost ended = seq![current@];
            done.push(current);
            current = Vec::new();
            assert(views(done@) =~= before + ended);
            assert(before + (ended + ahead) =~= (before + ended) + ahead);
        } else {
            current.push(c);
        }
        i += 1;
    }
    let ghost before = views(done@);
    let ghost last = current@;
    done.push(current);
    assert(views(done@) =~= before + seq![last]);
    done
}

/// The parts of `s` between occurrences of the text `pattern`, found from
/// left to right without overlap: one more part than there are
/// occurrences. An empty pattern occurs nowhere.
pub open spec fn parts(s: Seq<char>, pattern: Seq<char>, current: Seq<char>) -> Seq<Seq<char>>
    decreases s.len(),
{
    if s.len() == 0 {
        seq![current]
    } else if pattern.len() > 0 && occurs_at(s, 0, pattern) {
        seq![current] + parts(s.skip(pattern.len() as int), pattern, Seq::empty())
    } else {
        parts(s.skip(1), pattern, current.push(s[0]))
    }
}

/// The parts of `s` between occurrences of the text `pattern`.
pub fn split_on_text(s: &Vec<char>, pattern: &Vec<char>) -> (r: Vec<Vec<char>>)
    ensures
        views(r@) == parts(s@, pattern@, Seq::empty()),
{
    let n: usize = s.len();
    let m: usize = pattern.len();
    let mut done: Vec<Vec<char>> = Vec::new();
    let mut current: Vec<char> = Vec::new();
    let mut i: usize = 0;
    assert(s@.skip(0) =~= s@);
    assert(views(done@) =~= Seq::<Seq<char>>::empty());
    while i < n
        invariant
            n == s.len(),
            m == pattern.len(),
            i <= n,
            parts(s@, pattern@, Seq::empty()) == views(done@) + parts(
                s@.skip(i as int),
                pattern@,
                current@,
            ),
        decreases n - i,
    {
        let ghost rest = s@.skip(i as int);
        let found = m > 0 && matches_at(s, i, pattern);
        assert(found == (m > 0 && occurs_at(rest, 0, pattern@))) by {
            if i + m <= n {
                assert(rest.subrange(0, m as int) =~= s@.subrange(i as int, i + m));
            }
        }
        if found {
            let ghost before = views(done@);
            let ghost ahead = parts(rest.skip(m as int), pattern@, Seq::empty());
            let ghost ended = seq![current@];
            assert(rest.skip(m as int) =~= s@.skip(i + m));
            done.push(current);
            current = Vec::new();
            assert(views(done@) =~= before + ended);
            assert(before + (ended + ahead) =~= (before + ended) + ahead);
            i += m;
        } else {
            assert(rest.skip(1) =~= s@.skip(i + 1));
            current.push(s[i]);
            i += 1;
        }
    }
    let ghost before = views(done@);
    let ghost last = current@;
    done.push(current);
    assert(views(done@) =~= before + seq![last]);
    done
}

/// The words still to come when `rest` is left to read and `current` holds
/// the characters gathered for the word being read.
pub open spec fn words_from(rest: Seq<char>, current: Seq<char>) -> Seq<Seq<char>>
    decreases rest.len(),
{
    if rest.len() == 0 {
        if current.len() > 0 {
            seq![current]
        } else {
            Seq::empty()
        }
    } else if whitespace(rest[0]) {
        if current.len() > 0 {
            seq![current] + words_from(rest.skip(1), Seq::empty())
        } else {
            words_from(rest.skip(1), Seq::empty())
        }
    } else {
        words_from(rest.skip(1), current.push(rest[0]))
    }
}

/// The words of `s`: its longest runs of characters that are not white space.
pub open spec fn words(s: Seq<char>) -> Seq<Seq<char>> {
    words_from(s, Seq::empty())
}

/// No word is empty.
pub proof fn lemma_words_are_not_empty(rest: Seq<char>, current: Seq<char>, i: int)
    requires
        0 <= i < words_from(rest, current).len(),
    ensures
        words_from(rest, current)[i].len() > 0,
    decreases rest.len(),
{
    if rest.len() == 0 {
    } else if whitespace(rest[0]) {
        if current.len() > 0 {
            if i > 0 {
                lemma_words_are_not_empty(rest.skip(1), Seq::empty(), i - 1);
            }
        } else {
            lemma_words_are_not_empty(rest.skip(1), Seq::empty(), i);
        }
    } else {
        lemma_words_are_not_empty(rest.skip(1), current.push(rest[0]), i);
    }
}

/// The words of `s`, in order.
pub fn split_whitespace(s: &Vec<char>) -> (r: Vec<Vec<char>>)
    ensures
        views(r@) == words(s@),
{
    let n: usize = s.len();
    let mut done: Vec<Vec<char>> = Vec::new();
    let mut current: Vec<char> = Vec::new();
    let mut i: usize = 0;
    assert(s@.skip(0) =~= s@);
    assert(views(done@) =~= Seq::<Seq<char>>::empty());
    while i < n
        invariant
            n == s.len(),
            i <= n,
            words(s@) == views(done@) + words_from(s@.skip(i as int), current@),
        decreases n - i,
    {
        let ghost rest = s@.skip(i as int);
        assert(rest.skip(1) =~= s@.skip(i + 1));
        let c: char = s[i];
        if is_whitespace(c) {
            let ghost before = views(done@);
            let ghost ahead = words_from(rest.skip(1), Seq::empty());
            if current.len() > 0 {
                let ghost ended = seq![current@];
                done.push(current);
                current = Vec::new();
                assert(views(done@) =~= before + ended);
                assert(before + (ended + ahead) =~= (before + ended) + ahead);
            } else {
                assert(current@ =~= Seq::<char>::empty());
            }
        } else {
            current.push(c);
        }
        i += 1;
    }
    let ghost before = views(done@);
    if current.len() > 0 {
        let ghost last = current@;
        done.push(current);
        assert(views(done@) =~= before + seq![last]);
    } else {
        assert(before + Seq::<Seq<char>>::empty() =~= before);
    }
    done
}

/// `line` without the carriage return that ends it, if one does.
pub open spec fn without_carriage_return(line: Seq<char>) -> Seq<char> {
    if line.len() > 0 && line.last() == '\r' {
        line.drop_last()
    } else {
        line
    }
}

/// The lines still to come when `rest` is left to read and `current` holds
/// the characters gathered for the line being read.
pub open spec fn lines_from(rest: Seq<char>, current: Seq<char>) -> Seq<Seq<char>>
    decreases rest.len(),
{
    if rest.len() == 0 {
        if current.len() > 0 {
            seq![current]
        } else {
            Seq::empty()
        }
    } else if rest[0] == '\n' {
        seq![without_carriage_return(current)] + lines_from(rest.skip(1), Seq::empty())
    } else {
        lines_from(rest.skip(1), current.push(rest[0]))
    }
}

/// The lines of `s`. A line ends at a line feed, or at a carriage return
/// followed by a line feed; neither belongs to the line. Text after the last
/// line feed is a line of its own, as it stands, unless it is empty.
pub open spec fn lines(s: Seq<char>) -> Seq<Seq<char>> {
    lines_from(s, Seq::empty())
}

/// The lines of `s`, in order.
pub fn split_lines(s: &Vec<char>) -> (r: Vec<Vec<char>>)
    ensures
        views(r@) == lines(s@),
{
    let n: usize = s.len();
    let mut done: Vec<Vec<char>> = Vec::new();
    let mut current: Vec<char> = Vec::new();
    let mut i: usize = 0;
    assert(s@.skip(0) =~= s@);
    assert(views(done@) =~= Seq::<Seq<char>>::empty());
    while i < n
        invariant
            n == s.len(),
            i <= n,
            lines(s@) == views(done@) + lines_from(s@.skip(i as int), current@),
        decreases n - i,
    {
        let ghost rest = s@.skip(i as int);
        assert(rest.skip(1) =~= s@.skip(i + 1));
        let c: char = s[i];
        if c == '\n' {
            let ghost before = views(done@);
            let ghost ahead = lines_from(rest.skip(1), Seq::empty());
            let ghost ended = seq![without_carriage_return(current@)];
            let m: usize = current.len();
            if m > 0 && current[m - 1] == '\r' {
                current.pop();
            }
            done.push(current);
            current = Vec::new();
            assert(views(done@) =~= before + ended);
            assert(before + (ended + ahead) =~= (before + ended) + ahead);
        } else {
            current.push(c);
        }
        i += 1;
    }
    let ghost before = views(done@);
    if current.len() > 0 {
        let ghost last = current@;
        done.push(current);
        assert(views(done@) =~= before + seq![last]);
    } else {
        assert(before + Seq::<Seq<char>>::empty() =~= before);
    }
    done
}

/// Whether `c` is one of the ten decimal digits.
pub open spec fn digit(c: char) -> bool {
    0x30 <= c as u32 <= 0x39
}

/// The number that the decimal digit `c` stands for; 0 for any other character.
pub open spec fn digit_value(c: char) -> nat {
    if digit(c) {
        (c as u32 - 0x30) as nat
    } else {
        0
    }
}

/// Whether `s` holds decimal digits only.
pub open spec fn all_digits(s: Seq<char>) -> bool {
    forall|i: int| 0 <= i < s.len() ==> digit(#[trigger] s[i])
}

/// The number that the decimal digits `s` write.
pub open spec fn decimal_value(s: Seq<char>) -> nat
    decreases s.len(),
{
    if s.len() == 0 {
        0
    } else {
        decimal_value(s.drop_last()) * 10 + digit_value(s.last())
    }
}

/// `s` without the plus sign that starts it, if one does.
pub open spec fn unsigned_part(s: Seq<char>) -> Seq<char> {
    if s.len() > 0 && s[0] == '+' {
        s.skip(1)
    } else {
        s
    }
}

/// The number that `s` writes in decimal, where it is one or more digits,
/// with or without a plus sign before them, and the number fits in 32 bits.
pub open spec fn parsed_u32(s: Seq<char>) -> Option<u32> {
    let digits = unsigned_part(s);
    if digits.len() > 0 && all_digits(digits) && decimal_value(digits) <= u32::MAX {
        Some(decimal_value(digits) as u32)
    } else {
        None
    }
}

/// The digits read so far never write more than all of them do.
pub proof fn lemma_decimal_value_grows(s: Seq<char>, k: int)
    requires
        0 <= k <= s.len(),
    ensures
        decimal_value(s.take(k)) <= decimal_value(s),
    decreases s.len() - k,
{
    if k == s.len() {
        assert(s.take(k) =~= s);
    } else {
        lemma_decimal_value_grows(s.drop_last(), k);
        assert(s.drop_last().take(k) =~= s.take(k));
    }
}

/// Reads `s` as an unsigned decimal number of 32 bits.
pub fn parse_u32(s: &Vec<char>) -> (r: Option<u32>)
    ensures
        r == parsed_u32(s@),
{
    let n: usize = s.len();
    let start: usize = if n > 0 && s[0] == '+' {
        1
    } else {
        0
    };
    let ghost digits = unsigned_part(s@);
    assert(digits =~= s@.skip(start as int));
    if start == n {
        return None;
    }
    let mut value: u64 = 0;
    let mut i: usize = start;
    assert(digits.take(0) =~= Seq::<char>::empty());
    while i < n
        invariant
            n == s.len(),
            start <= i <= n,
            digits == s@.skip(start as int),
            digits == unsigned_part(s@),
            all_digits(digits.take(i - start)),
            value == decimal_value(digits.take(i - start)),
            value <= u32::MAX,
        decreases n - i,
    {
        let c: char = s[i];
        let u: u32 = c as u32;
        assert(digits[i - start] == c);
        if u < 0x30 || u > 0x39 {
            assert(!digit(digits[i - start]));
            return None;
        }
        let ghost next = digits.take(i - start + 1);
        assert(next.drop_last() =~= digits.take(i - start));
        assert(next.last() == c);
        value = value * 10 + (u - 0x30) as u64;
        assert(value == decimal_value(next));
        if value > 0xffff_ffff {
            proof {
                lemma_decimal_value_grows(digits, i - start + 1);
            }
            return None;
        }
        assert(all_digits(next)) by {
            assert forall|k: int| 0 <= k < next.len() implies digit(#[trigger] next[k]) by {
                if k < i - start {
                    assert(next[k] == digits.take(i - start)[k]);
                }
            }
        }
        i += 1;
    }
    assert(digits.take(n - start) =~= digits);
    Some(value as u32)
}

/// The character that writes the decimal digit `d`.
pub open spec fn digit_char(d: nat) -> char {
    if d == 0 {
        '0'
    } else if d == 1 {
        '1'
    } else if d == 2 {
        '2'
    } else if d == 3 {
        '3'
    } else if d == 4 {
        '4'
    } else if d == 5 {
        '5'
    } else if d == 6 {
        '6'
    } else if d == 7 {
        '7'
    } else if d == 8 {
        '8'
    } else {
        '9'
    }
}

/// The decimal digits that write `n`, without leading zeros.
pub open spec fn decimal(n: nat) -> Seq<char>
    decreases n,
{
    if n < 10 {
        seq![digit_char(n)]
    } else {
        decimal(n / 10).push(digit_char(n % 10))
    }
}

/// The decimal text of the integer `n`: a minus sign where it is negative,
/// then its digits.
pub open spec fn signed_decimal(n: int) -> Seq<char> {
    if n < 0 {
        seq!['-'] + decimal((-n) as nat)
    } else {
        decimal(n as nat)
    }
}

fn digit_to_char(d: u64) -> (c: char)
    requires
        d < 10,
    ensures
        c == digit_char(d as nat),
{
    if d == 0 {
        '0'
    } else if d == 1 {
        '1'
    } else if d == 2 {
        '2'
    } else if d == 3 {
        '3'
    } else if d == 4 {
        '4'
    } else if d == 5 {
        '5'
    } else if d == 6 {
        '6'
    } else if d == 7 {
        '7'
    } else if d == 8 {
        '8'
    } else {
        '9'
    }
}

/// Appends the decimal digits of `n` to `out`.
pub fn push_decimal(out: &mut Vec<char>, n: u64)
    ensures
        final(out)@ == old(out)@ + decimal(n as nat),
    decreases n,
{
    if n >= 10 {
        push_decimal(out, n / 10);
    }
    out.push(digit_to_char(n % 10));
    assert(out@ =~= old(out)@ + decimal(n as nat));
}

/// The decimal text of `n`.
pub fn u32_to_decimal(n: u32) -> (r: Vec<char>)
    ensures
        r@ == decimal(n as nat),
{
    let mut r: Vec<char> = Vec::new();
    push_decimal(&mut r, n as u64);
    assert(r@ =~= decimal(n as nat));
    r
}

/// The decimal text of `n`, with a minus sign where it is negative.
pub fn i32_to_decimal(n: i32) -> (r: Vec<char>)
    ensures
        r@ == signed_decimal(n as int),
{
    let mut r: Vec<char> = Vec::new();
    if n < 0 {
        r.push('-');
        let size: u64 = (-(n as i64)) as u64;
        push_decimal(&mut r, size);
    } else {
        push_decimal(&mut r, n as u64);
        assert(r@ =~= decimal(n as nat));
    }
    r
}

/// `n` blanks.
pub open spec fn spaces(n: nat) -> Seq<char> {
    Seq::new(n, |i: int| ' ')
}

/// `s` filled up with blanks on the right to `width` characters; `s` itself
/// where it is that long already.
pub open spec fn padded(s: Seq<char>, width: nat) -> Seq<char> {
    if s.len() >= width {
        s
    } else {
        s + spaces((width - s.len()) as nat)
    }
}

/// Appends `s` to `out`, filled up with blanks on the right to `width` characters.
pub fn push_padded(out: &mut Vec<char>, s: &Vec<char>, width: usize)
    ensures
        final(out)@ == old(out)@ + padded(s@, width as nat),
{
    append_chars(out, s);
    let mut k: usize = s.len();
    while k < width
        invariant
            s.len() <= k,
            k <= width || k == s.len(),
            out@ == old(out)@ + s@ + spaces((k - s.len()) as nat),
        decreases width - k,
    {
        out.push(' ');
        assert(spaces((k + 1 - s.len()) as nat) =~= spaces((k - s.len()) as nat).push(' '));
        assert(out@ =~= old(out)@ + s@ + spaces((k + 1 - s.len()) as nat));
        k += 1;
    }
    assert(out@ =~= old(out)@ + padded(s@, width as nat)) by {
        if s.len() >= width {
            assert(spaces(0) =~= Seq::<char>::empty());
        }
    }
}

/// The number of bytes that `c` takes in UTF-8.
pub open spec fn utf8_width(c: char) -> nat {
    let u = c as u32;
    if u < 0x80 {
        1
    } else if u < 0x800 {
        2
    } else if u < 0x10000 {
        3
    } else {
        4
    }
}

/// The number of bytes that `s` takes in UTF-8.
pub open spec fn utf8_len(s: Seq<char>) -> nat
    decreases s.len(),
{
    if s.len() == 0 {
        0
    } else {
        utf8_len(s.drop_last()) + utf8_width(s.last())
    }
}

/// The bytes of two texts set one after the other are those of each.
pub proof fn lemma_utf8_len_of_concat(a: Seq<char>, b: Seq<char>)
    ensures
        utf8_len(a + b) == utf8_len(a) + utf8_len(b),
    decreases b.len(),
{
    if b.len() == 0 {
        assert(a + b =~= a);
    } else {
        lemma_utf8_len_of_concat(a, b.drop_last());
        assert((a + b).drop_last() =~= a + b.drop_last());
        assert((a + b).last() == b.last());
    }
}

/// The number of bytes of a text is the length of its encoding in UTF-8.
pub proof fn lemma_utf8_len_is_encoded_len(s: Seq<char>)
    ensures
        utf8_len(s) == vstd::utf8::encode_utf8(s).len(),
    decreases s.len(),
{
    if s.len() > 0 {
        let first = seq![s[0]];
        lemma_utf8_len_is_encoded_len(s.drop_first());
        lemma_utf8_len_of_concat(first, s.drop_first());
        assert(first + s.drop_first() =~= s);
        assert(utf8_len(first) == utf8_width(s[0])) by {
            assert(first.drop_last() =~= Seq::<char>::empty());
            assert(utf8_len(first.drop_last()) == 0);
        }
        vstd::utf8::char_is_scalar(s[0]);
    }
}

/// A text has no more characters than bytes.
pub proof fn lemma_len_at_most_utf8_len(s: Seq<char>)
    ensures
        s.len() <= utf8_len(s),
    decreases s.len(),
{
    if s.len() > 0 {
        lemma_len_at_most_utf8_len(s.drop_last());
    }
}

/// The decimal digits of a number write that number, and are digits.
pub proof fn lemma_decimal_writes_its_number(n: nat)
    ensures
        all_digits(decimal(n)),
        decimal_value(decimal(n)) == n,
        decimal(n).len() >= 1,
    decreases n,
{
    if n < 10 {
        let one = seq![digit_char(n)];
        assert(one.drop_last() =~= Seq::<char>::empty());
        assert(decimal_value(one.drop_last()) == 0);
    } else {
        lemma_decimal_writes_its_number(n / 10);
        let most = decimal(n / 10);
        let all = most.push(digit_char(n % 10));
        assert(all.drop_last() =~= most);
        assert forall|i: int| 0 <= i < all.len() implies digit(#[trigger] all[i]) by {
            if i < most.len() {
                assert(all[i] == most[i]);
            }
        }
    }
}

/// Reading the decimal text of a number of 32 bits gives the number back.
pub proof fn lemma_parse_reads_decimal(n: u32)
    ensures
        parsed_u32(decimal(n as nat)) == Some(n),
{
    lemma_decimal_writes_its_number(n as nat);
    assert(digit(decimal(n as nat)[0]));
}

/// A number of 32 bits has at most ten decimal digits.
pub proof fn lemma_decimal_len(n: nat)
    ensures
        decimal(n).len() >= 1,
        n < 10 ==> decimal(n).len() == 1,
        n < 100 ==> decimal(n).len() <= 2,
        n < 1000 ==> decimal(n).len() <= 3,
        n < 10000 ==> decimal(n).len() <= 4,
        n < 100000 ==> decimal(n).len() <= 5,
        n < 1000000 ==> decimal(n).len() <= 6,
        n < 10000000 ==> decimal(n).len() <= 7,
        n < 100000000 ==> decimal(n).len() <= 8,
        n < 1000000000 ==> decimal(n).len() <= 9,
        n < 10000000000 ==> decimal(n).len() <= 10,
    decreases n,
{
    if n >= 10 {
        lemma_decimal_len(n / 10);
    }
}

/// A length as a machine word holds it: the length itself, or the largest
/// word where the length is greater.
pub open spec fn capped(n: nat) -> usize {
    if n > usize::MAX {
        usize::MAX
    } else {
        n as usize
    }
}

/// The number of bytes that `s` takes in UTF-8, capped at the largest word.
pub fn byte_len(s: &Vec<char>) -> (r: usize)
    ensures
        r == capped(utf8_len(s@)),
{
    let mut total: usize = 0;
    let mut i: usize = 0;
    assert(s@.take(0) =~= Seq::<char>::empty());
    while i < s.len()
        invariant
            i <= s.len(),
            total == capped(utf8_len(s@.take(i as int))),
        decreases s.len() - i,
    {
        let u: u32 = s[i] as u32;
        let width: usize = if u < 0x80 {
            1
        } else if u < 0x800 {
            2
        } else if u < 0x10000 {
            3
        } else {
            4
        };
        assert(s@.take(i + 1).drop_last() =~= s@.take(i as int));
        assert(s@.take(i + 1).last() == s@[i as int]);
        total = if total > usize::MAX - width {
            usize::MAX
        } else {
            total + width
        };
        i += 1;
    }
    assert(s@.take(s.len() as int) =~= s@);
    total
}

} // verus!
