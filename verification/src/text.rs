//! Text helpers for the map format: characters of a string, lines, fields
//! separated by a character, and small unsigned numbers.

use vstd::prelude::*;

verus! {

/// How many characters of `s`, starting at `from`, come before the next
/// `stop` (or before the end of `s`, if there is none).
pub open spec fn run_len(s: Seq<char>, stop: char, from: int) -> nat
    decreases s.len() - from,
{
    if from < 0 || from >= s.len() || s[from] == stop {
        0
    } else {
        1 + run_len(s, stop, from + 1)
    }
}

/// `run_len` ends at the first `stop` at or after `from`, and inside `s`.
pub proof fn lemma_run_len(s: Seq<char>, stop: char, from: int)
    requires
        0 <= from <= s.len(),
    ensures
        from + run_len(s, stop, from) <= s.len(),
        from + run_len(s, stop, from) < s.len() ==> s[from + run_len(s, stop, from)] == stop,
        forall|k: int| from <= k < from + run_len(s, stop, from) ==> s[k] != stop,
    decreases s.len() - from,
{
    if from < s.len() && s[from] != stop {
        lemma_run_len(s, stop, from + 1);
    }
}

/// Every character of `part` occurs in `whole`.
pub open spec fn made_of(part: Seq<char>, whole: Seq<char>) -> bool {
    forall|k: int| 0 <= k < part.len() ==> whole.contains(#[trigger] part[k])
}

/// The characters of `source`, in order.
pub fn to_chars(source: &str) -> (chars: Vec<char>)
    ensures
        chars@ == source@,
{
    let mut chars: Vec<char> = Vec::new();
    for c in it: source.chars()
        invariant
            it.seq() == source@,
            chars@ == it.seq().take(it.index() as int),
    {
        chars.push(c);
    }
    chars
}

/// The index of the first `stop` in `text` at or after `from`, or the length
/// of `text` if there is none.
pub fn find(text: &[char], stop: char, from: usize) -> (at: usize)
    requires
        from <= text@.len(),
    ensures
        at == from + run_len(text@, stop, from as int),
        from <= at <= text@.len(),
        at < text@.len() ==> text@[at as int] == stop,
        forall|k: int| from <= k < at ==> text@[k] != stop,
{
    proof {
        lemma_run_len(text@, stop, from as int);
    }
    let mut at: usize = from;
    while at < text.len() && text[at] != stop
        invariant
            from <= at <= text@.len(),
            from + run_len(text@, stop, from as int) == at + run_len(text@, stop, at as int),
        decreases text@.len() - at,
    {
        at += 1;
    }
    at
}

/// A copy of the characters `text[from..to]`.
pub fn copy_range(text: &[char], from: usize, to: usize) -> (part: Vec<char>)
    requires
        from <= to <= text@.len(),
    ensures
        part@ == text@.subrange(from as int, to as int),
        made_of(part@, text@),
{
    let mut part: Vec<char> = Vec::new();
    let mut i: usize = from;
    while i < to
        invariant
            from <= i <= to <= text@.len(),
            part@ == text@.subrange(from as int, i as int),
        decreases to - i,
    {
        part.push(text[i]);
        i += 1;
    }
    assert forall|k: int| 0 <= k < part@.len() implies text@.contains(#[trigger] part@[k]) by {
        assert(text@[from + k] == part@[k]);
    }
    part
}

/// Whether two texts hold the same characters.
pub fn same_text(a: &[char], b: &[char]) -> (same: bool)
    ensures
        same == (a@ == b@),
{
    if a.len() != b.len() {
        return false;
    }
    let mut i: usize = 0;
    while i < a.len()
        invariant
            a@.len() == b@.len(),
            i <= a@.len(),
            a@.take(i as int) == b@.take(i as int),
        decreases a@.len() - i,
    {
        if a[i] != b[i] {
            return false;
        }
        assert(a@.take(i + 1) == a@.take(i as int).push(a@[i as int]));
        assert(b@.take(i + 1) == b@.take(i as int).push(b@[i as int]));
        i += 1;
    }
    assert(a@.take(a@.len() as int) == a@);
    assert(b@.take(b@.len() as int) == b@);
    true
}

/// `String::push` of the standard library appends one character to the end
/// of the string and leaves the rest as it was.
pub assume_specification[ String::push ](s: &mut String, ch: char)
    ensures
        final(s)@ == old(s)@.push(ch),
;

/// A string that holds the characters of `text`.
pub fn to_text(text: &[char]) -> (s: String)
    ensures
        s@ == text@,
{
    let mut s = String::new();
    let mut i: usize = 0;
    while i < text.len()
        invariant
            i <= text@.len(),
            s@ == text@.take(i as int),
        decreases text@.len() - i,
    {
        s.push(text[i]);
        assert(text@.take(i + 1) == text@.take(i as int).push(text@[i as int]));
        i += 1;
    }
    assert(text@.take(text@.len() as int) == text@);
    s
}

/// Whether one of `texts` holds the same characters as `word`.
pub fn holds(texts: &Vec<Vec<char>>, word: &[char]) -> (found: bool)
    ensures
        found == views(texts@).contains(word@),
{
    let mut i: usize = 0;
    while i < texts.len()
        invariant
            i <= texts@.len(),
            forall|j: int| 0 <= j < i ==> views(texts@)[j] != word@,
        decreases texts@.len() - i,
    {
        if same_text(texts[i].as_slice(), word) {
            assert(views(texts@)[i as int] == word@);
            return true;
        }
        i += 1;
    }
    false
}

/// The texts held by a list of character vectors.
pub open spec fn views(texts: Seq<Vec<char>>) -> Seq<Seq<char>> {
    texts.map_values(|t: Vec<char>| t@)
}

/// `line` without one trailing carriage return.
pub open spec fn chomp(line: Seq<char>) -> Seq<char> {
    if line.len() > 0 && line.last() == '\r' {
        line.drop_last()
    } else {
        line
    }
}

/// The lines of `s` from index `from` on. A line ends at a line feed, which
/// is dropped together with a carriage return just before it. What follows
/// the last line feed is a line too, unless it is empty.
pub open spec fn lines_from(s: Seq<char>, from: int) -> Seq<Seq<char>>
    decreases s.len() - from,
{
    if from < 0 || from >= s.len() {
        Seq::empty()
    } else {
        let end = from + run_len(s, '\n', from);
        if end < s.len() {
            seq![chomp(s.subrange(from, end))] + lines_from(s, end + 1)
        } else {
            seq![s.skip(from)]
        }
    }
}

/// The lines of `s`.
pub open spec fn lines(s: Seq<char>) -> Seq<Seq<char>> {
    lines_from(s, 0)
}

/// No line holds a line feed, and every line is made of the text's
/// characters.
pub proof fn lemma_lines_are_clean(s: Seq<char>, from: int)
    requires
        0 <= from,
    ensures
        forall|i: int|
            0 <= i < lines_from(s, from).len() ==> !(#[trigger] lines_from(s, from)[i]).contains(
                '\n',
            ) && made_of(lines_from(s, from)[i], s),
    decreases s.len() - from,
{
    if from < s.len() {
        lemma_run_len(s, '\n', from);
        let end = from + run_len(s, '\n', from);
        let all = lines_from(s, from);
        if end < s.len() {
            let raw = s.subrange(from, end);
            let first = chomp(raw);
            lemma_lines_are_clean(s, end + 1);
            let rest = lines_from(s, end + 1);
            assert(all == seq![first] + rest);
            assert forall|k: int| 0 <= k < first.len() implies #[trigger] first[k] != '\n'
                && s.contains(first[k]) by {
                assert(first[k] == s[from + k]);
            }
            assert forall|i: int| 0 <= i < all.len() implies !(#[trigger] all[i]).contains('\n')
                && made_of(all[i], s) by {
                if i > 0 {
                    assert(all[i] == rest[i - 1]);
                }
            }
        } else {
            let last = s.skip(from);
            assert forall|k: int| 0 <= k < last.len() implies #[trigger] last[k] != '\n'
                && s.contains(last[k]) by {
                assert(last[k] == s[from + k]);
            }
        }
    }
}

/// Splits `text` into its lines.
pub fn split_lines(text: &[char]) -> (out: Vec<Vec<char>>)
    ensures
        views(out@) == lines(text@),
        forall|i: int| 0 <= i < out@.len() ==> !(#[trigger] out@[i])@.contains('\n'),
        forall|i: int| 0 <= i < out@.len() ==> made_of((#[trigger] out@[i])@, text@),
{
    let mut out: Vec<Vec<char>> = Vec::new();
    let mut from: usize = 0;
    while from < text.len()
        invariant
            from <= text@.len(),
            lines(text@) == views(out@) + lines_from(text@, from as int),
            forall|i: int| 0 <= i < out@.len() ==> !(#[trigger] out@[i])@.contains('\n'),
            forall|i: int| 0 <= i < out@.len() ==> made_of((#[trigger] out@[i])@, text@),
        decreases text@.len() - from,
    {
        let end = find(text, '\n', from);
        let ghost before = views(out@);
        if end < text.len() {
            let mut stop = end;
            if stop > from && text[stop - 1] == '\r' {
                stop -= 1;
            }
            let line = copy_range(text, from, stop);
            assert(line@ == chomp(text@.subrange(from as int, end as int)));
            assert(!line@.contains('\n'));
            out.push(line);
            assert(views(out@) == before.push(line@));
            assert(before + (seq![line@] + lines_from(text@, end + 1)) == before.push(line@)
                + lines_from(text@, end + 1));
            from = end + 1;
        } else {
            let line = copy_range(text, from, end);
            assert(line@ == text@.skip(from as int));
            assert(!line@.contains('\n'));
            out.push(line);
            assert(views(out@) == before.push(line@));
            assert(before + seq![line@] == before.push(line@) + lines_from(text@, end as int));
            from = end;
        }
    }
    assert(views(out@) + Seq::<Seq<char>>::empty() == views(out@));
    out
}

/// The text made of `lines`, each closed by a carriage return and a line
/// feed.
pub open spec fn joined(lines: Seq<Seq<char>>) -> Seq<char>
    decreases lines.len(),
{
    if lines.len() == 0 {
        Seq::empty()
    } else {
        joined(lines.drop_last()) + lines.last() + seq!['\r', '\n']
    }
}

/// A run in the second part of a text is the run in that part alone.
pub proof fn lemma_run_len_shift(a: Seq<char>, t: Seq<char>, stop: char, from: int)
    requires
        0 <= from <= t.len(),
    ensures
        run_len(a + t, stop, a.len() + from) == run_len(t, stop, from),
    decreases t.len() - from,
{
    if from < t.len() {
        assert((a + t)[a.len() + from] == t[from]);
        if t[from] != stop {
            lemma_run_len_shift(a, t, stop, from + 1);
        }
    }
}

/// The lines from a place in the second part of a text on are the lines of
/// that part alone from that place on.
pub proof fn lemma_lines_shift(a: Seq<char>, t: Seq<char>, from: int)
    requires
        0 <= from <= t.len(),
    ensures
        lines_from(a + t, a.len() + from) == lines_from(t, from),
    decreases t.len() - from,
{
    if from < t.len() {
        lemma_run_len_shift(a, t, '\n', from);
        lemma_run_len(t, '\n', from);
        let end = from + run_len(t, '\n', from);
        if end < t.len() {
            assert((a + t).subrange(a.len() + from, a.len() + end) == t.subrange(from, end));
            lemma_lines_shift(a, t, end + 1);
        } else {
            assert((a + t).skip(a.len() + from) == t.skip(from));
        }
    }
}

/// A text that starts with a line without line feed, closed by a carriage
/// return and a line feed, has that line as its first line.
pub proof fn lemma_lines_of_first(line: Seq<char>, rest: Seq<char>)
    requires
        !line.contains('\n'),
    ensures
        lines(line + seq!['\r', '\n'] + rest) == seq![line] + lines(rest),
{
    let head = line + seq!['\r', '\n'];
    let s = head + rest;
    let n = line.len() as int;
    lemma_run_len(s, '\n', 0);
    let end = run_len(s, '\n', 0) as int;
    assert(s[n + 1] == '\n');
    assert(end <= n + 1) by {
        if end > n + 1 {
            assert(s[n + 1] != '\n');
        }
    }
    assert(end == n + 1) by {
        if end < n + 1 {
            assert(s[end] == '\n');
            if end < n {
                assert(line[end] == '\n');
                assert(line.contains('\n'));
            }
        }
    }
    assert(s.subrange(0, end) == line.push('\r'));
    assert(line.push('\r').drop_last() == line);
    lemma_lines_shift(head, rest, 0);
    assert(head.len() == n + 2);
}

/// The lines of a text made of lines without line feed are those lines.
pub proof fn lemma_lines_of_joined(texts: Seq<Seq<char>>)
    requires
        forall|i: int| 0 <= i < texts.len() ==> !(#[trigger] texts[i]).contains('\n'),
    ensures
        lines(joined(texts)) == texts,
    decreases texts.len(),
{
    if texts.len() == 0 {
    } else {
        lemma_joined_first(texts);
        let rest = texts.drop_first();
        assert forall|i: int| 0 <= i < rest.len() implies !(#[trigger] rest[i]).contains('\n') by {
            assert(rest[i] == texts[i + 1]);
        }
        lemma_lines_of_joined(rest);
        lemma_lines_of_first(texts[0], joined(rest));
        assert(seq![texts[0]] + rest == texts);
    }
}

/// A joined text starts with its first line.
pub proof fn lemma_joined_first(texts: Seq<Seq<char>>)
    requires
        texts.len() > 0,
    ensures
        joined(texts) == texts[0] + seq!['\r', '\n'] + joined(texts.drop_first()),
    decreases texts.len(),
{
    if texts.len() == 1 {
        assert(texts.drop_last() == Seq::<Seq<char>>::empty());
        assert(texts.drop_first() == Seq::<Seq<char>>::empty());
        assert(joined(texts.drop_last()) == Seq::<char>::empty());
        assert(joined(texts) == Seq::<char>::empty() + texts[0] + seq!['\r', '\n']);
        assert(Seq::<char>::empty() + texts[0] == texts[0]);
        assert(texts[0] + seq!['\r', '\n'] + Seq::<char>::empty() == texts[0] + seq!['\r', '\n']);
    } else {
        let front = texts.drop_last();
        lemma_joined_first(front);
        assert(front[0] == texts[0]);
        assert(front.drop_first() == texts.drop_first().drop_last());
        assert(texts.drop_first().last() == texts.last());
        let eol = seq!['\r', '\n'];
        assert(joined(texts) == joined(front) + texts.last() + eol);
        assert(joined(texts.drop_first()) == joined(front.drop_first()) + texts.last() + eol);
        assert(texts[0] + eol + joined(front.drop_first()) + texts.last() + eol == texts[0] + eol
            + (joined(front.drop_first()) + texts.last() + eol));
    }
}

/// The fields of `s` from index `from` on: the stretches between one `sep`
/// and the next. There is always at least one field, possibly empty.
pub open spec fn fields_from(s: Seq<char>, sep: char, from: int) -> Seq<Seq<char>>
    decreases s.len() - from,
{
    let end = from + run_len(s, sep, from);
    if 0 <= from && end < s.len() {
        seq![s.subrange(from, end)] + fields_from(s, sep, end + 1)
    } else {
        seq![s.skip(from)]
    }
}

/// The fields of `s` separated by `sep`.
pub open spec fn fields(s: Seq<char>, sep: char) -> Seq<Seq<char>> {
    fields_from(s, sep, 0)
}

/// There is at least one field, no field holds a separator, and every field
/// is made of the text's characters.
pub proof fn lemma_fields_are_clean(s: Seq<char>, sep: char, from: int)
    requires
        0 <= from <= s.len(),
    ensures
        fields_from(s, sep, from).len() >= 1,
        forall|i: int|
            0 <= i < fields_from(s, sep, from).len() ==> !(#[trigger] fields_from(
                s,
                sep,
                from,
            )[i]).contains(sep) && made_of(fields_from(s, sep, from)[i], s),
    decreases s.len() - from,
{
    lemma_run_len(s, sep, from);
    let end = from + run_len(s, sep, from);
    let all = fields_from(s, sep, from);
    if end < s.len() {
        let first = s.subrange(from, end);
        lemma_fields_are_clean(s, sep, end + 1);
        let rest = fields_from(s, sep, end + 1);
        assert(all == seq![first] + rest);
        assert forall|k: int| 0 <= k < first.len() implies #[trigger] first[k] != sep
            && s.contains(first[k]) by {
            assert(first[k] == s[from + k]);
        }
        assert forall|i: int| 0 <= i < all.len() implies !(#[trigger] all[i]).contains(sep)
            && made_of(all[i], s) by {
            if i > 0 {
                assert(all[i] == rest[i - 1]);
            }
        }
    } else {
        let last = s.skip(from);
        assert forall|k: int| 0 <= k < last.len() implies #[trigger] last[k] != sep && s.contains(
            last[k],
        ) by {
            assert(last[k] == s[from + k]);
        }
    }
}

/// The text made of `words` with a `sep` between one and the next.
pub open spec fn separated(words: Seq<Seq<char>>, sep: char) -> Seq<char>
    decreases words.len(),
{
    if words.len() == 0 {
        Seq::empty()
    } else if words.len() == 1 {
        words[0]
    } else {
        separated(words.drop_last(), sep) + seq![sep] + words.last()
    }
}

/// The fields from a place in the second part of a text on are the fields
/// of that part alone from that place on.
pub proof fn lemma_fields_shift(a: Seq<char>, t: Seq<char>, sep: char, from: int)
    requires
        0 <= from <= t.len(),
    ensures
        fields_from(a + t, sep, a.len() + from) == fields_from(t, sep, from),
    decreases t.len() - from,
{
    lemma_run_len_shift(a, t, sep, from);
    lemma_run_len(t, sep, from);
    let end = from + run_len(t, sep, from);
    if end < t.len() {
        assert((a + t).subrange(a.len() + from, a.len() + end) == t.subrange(from, end));
        lemma_fields_shift(a, t, sep, end + 1);
    } else {
        assert((a + t).skip(a.len() + from) == t.skip(from));
    }
}

/// A text without separator is its own single field.
pub proof fn lemma_fields_of_one(word: Seq<char>, sep: char)
    requires
        !word.contains(sep),
    ensures
        fields(word, sep) == seq![word],
{
    lemma_run_len(word, sep, 0);
    let end = run_len(word, sep, 0) as int;
    if end < word.len() {
        assert(word[end] == sep);
        assert(word.contains(sep));
    }
    assert(word.skip(0) == word);
}

/// A text that starts with a word without separator, followed by a
/// separator, has that word as its first field.
pub proof fn lemma_fields_of_first(word: Seq<char>, rest: Seq<char>, sep: char)
    requires
        !word.contains(sep),
    ensures
        fields(word + seq![sep] + rest, sep) == seq![word] + fields(rest, sep),
{
    let head = word + seq![sep];
    let s = head + rest;
    let n = word.len() as int;
    lemma_run_len(s, sep, 0);
    let end = run_len(s, sep, 0) as int;
    assert(s[n] == sep);
    assert(end <= n) by {
        if end > n {
            assert(s[n] != sep);
        }
    }
    assert(end == n) by {
        if end < n {
            assert(s[end] == sep);
            assert(word[end] == sep);
            assert(word.contains(sep));
        }
    }
    assert(s.subrange(0, end) == word);
    lemma_fields_shift(head, rest, sep, 0);
    assert(head.len() == n + 1);
}

/// A separated text starts with its first word.
pub proof fn lemma_separated_first(words: Seq<Seq<char>>, sep: char)
    requires
        words.len() > 1,
    ensures
        separated(words, sep) == words[0] + seq![sep] + separated(words.drop_first(), sep),
    decreases words.len(),
{
    let front = words.drop_last();
    let tail = words.drop_first();
    let last = words.last();
    let mark = seq![sep];
    assert(front[0] == words[0]);
    assert(tail.last() == last);
    assert(separated(words, sep) == separated(front, sep) + mark + last);
    if words.len() == 2 {
        assert(separated(front, sep) == front[0]);
        assert(tail[0] == last);
        assert(separated(tail, sep) == tail[0]);
    } else {
        lemma_separated_first(front, sep);
        let middle = separated(front.drop_first(), sep);
        assert(front.drop_first() == tail.drop_last());
        assert(separated(tail, sep) == middle + mark + last);
        assert((words[0] + mark + middle) + mark + last == words[0] + mark + (middle + mark
            + last));
    }
}

/// The fields of a text made of words without separator are those words.
pub proof fn lemma_fields_of_separated(words: Seq<Seq<char>>, sep: char)
    requires
        words.len() > 0,
        forall|i: int| 0 <= i < words.len() ==> !(#[trigger] words[i]).contains(sep),
    ensures
        fields(separated(words, sep), sep) == words,
    decreases words.len(),
{
    if words.len() == 1 {
        lemma_fields_of_one(words[0], sep);
        assert(seq![words[0]] == words);
    } else {
        lemma_separated_first(words, sep);
        let rest = words.drop_first();
        assert forall|i: int| 0 <= i < rest.len() implies !(#[trigger] rest[i]).contains(sep) by {
            assert(rest[i] == words[i + 1]);
        }
        lemma_fields_of_separated(rest, sep);
        lemma_fields_of_first(words[0], separated(rest, sep), sep);
        assert(seq![words[0]] + rest == words);
    }
}

/// Splits `text` at every `sep`.
pub fn split_fields(text: &[char], sep: char) -> (out: Vec<Vec<char>>)
    ensures
        views(out@) == fields(text@, sep),
        out@.len() >= 1,
        forall|i: int| 0 <= i < out@.len() ==> !(#[trigger] out@[i])@.contains(sep),
        forall|i: int| 0 <= i < out@.len() ==> made_of((#[trigger] out@[i])@, text@),
{
    let mut out: Vec<Vec<char>> = Vec::new();
    let mut from: usize = 0;
    loop
        invariant_except_break
            from <= text@.len(),
            fields(text@, sep) == views(out@) + fields_from(text@, sep, from as int),
        invariant
            forall|i: int| 0 <= i < out@.len() ==> !(#[trigger] out@[i])@.contains(sep),
            forall|i: int| 0 <= i < out@.len() ==> made_of((#[trigger] out@[i])@, text@),
        ensures
            views(out@) == fields(text@, sep),
            out@.len() >= 1,
        decreases text@.len() - from,
    {
        let end = find(text, sep, from);
        let field = copy_range(text, from, end);
        let ghost before = views(out@);
        assert(!field@.contains(sep));
        out.push(field);
        assert(views(out@) == before.push(field@));
        if end < text.len() {
            assert(before + (seq![field@] + fields_from(text@, sep, end + 1)) == before.push(
                field@,
            ) + fields_from(text@, sep, end + 1));
            from = end + 1;
        } else {
            assert(field@ == text@.skip(from as int));
            assert(before + seq![field@] == before.push(field@));
            break ;
        }
    }
    out
}

/// `s` cut at its first `sep`: what comes before it and what comes after.
pub open spec fn cut(s: Seq<char>, sep: char) -> Option<(Seq<char>, Seq<char>)> {
    let at = run_len(s, sep, 0) as int;
    if at < s.len() {
        Some((s.take(at), s.skip(at + 1)))
    } else {
        None
    }
}

/// A key without separator, a separator and a value are cut into the key
/// and the value.
pub proof fn lemma_cut_reads_back(key: Seq<char>, value: Seq<char>, sep: char)
    requires
        !key.contains(sep),
    ensures
        cut(key + seq![sep] + value, sep) == Some((key, value)),
{
    let s = key + seq![sep] + value;
    let n = key.len() as int;
    lemma_run_len(s, sep, 0);
    let at = run_len(s, sep, 0) as int;
    assert(s[n] == sep);
    if at > n {
        assert(s[n] != sep);
    }
    if at < n {
        assert(key[at] == sep);
        assert(key.contains(sep));
    }
    assert(s.take(n) == key);
    assert(s.skip(n + 1) == value);
}

/// Cuts `text` at its first `sep`, if it holds one.
pub fn split_once(text: &[char], sep: char) -> (halves: Option<(Vec<char>, Vec<char>)>)
    ensures
        match halves {
            Some((key, value)) => cut(text@, sep) == Some((key@, value@)),
            None => cut(text@, sep) is None,
        },
{
    let at = find(text, sep, 0);
    if at < text.len() {
        let key = copy_range(text, 0, at);
        let value = copy_range(text, at + 1, text.len());
        Some((key, value))
    } else {
        None
    }
}

/// The value of `c` as a digit in base `radix`: `0` to `9`, then the Latin
/// letters in either case for ten and up.
pub open spec fn digit_value(c: char, radix: int) -> Option<int> {
    let v: int = if '0' <= c <= '9' {
        c as int - '0' as int
    } else if 'a' <= c <= 'z' {
        c as int - 'a' as int + 10
    } else if 'A' <= c <= 'Z' {
        c as int - 'A' as int + 10
    } else {
        radix
    };
    if v < radix {
        Some(v)
    } else {
        None
    }
}

/// The number that the digits `s` write in base `radix`, most significant
/// digit first; `None` if a character is no digit of that base.
pub open spec fn number_value(s: Seq<char>, radix: int) -> Option<int>
    decreases s.len(),
{
    if s.len() == 0 {
        Some(0)
    } else {
        match (number_value(s.drop_last(), radix), digit_value(s.last(), radix)) {
            (Some(high), Some(low)) => Some(high * radix + low),
            _ => None,
        }
    }
}

/// What `s` denotes as an unsigned 8-bit number in base `radix`: an optional
/// plus sign, then one or more digits that write a number up to 255.
pub open spec fn u8_value(s: Seq<char>, radix: int) -> Option<u8> {
    let digits = if s.len() > 0 && s[0] == '+' {
        s.drop_first()
    } else {
        s
    };
    if digits.len() == 0 {
        None
    } else {
        match number_value(digits, radix) {
            Some(v) if v <= u8::MAX => Some(v as u8),
            _ => None,
        }
    }
}

/// A number written with valid digits is not negative, and never smaller
/// than the number that a prefix of its digits writes.
pub proof fn lemma_number_value_grows(s: Seq<char>, radix: int, n: int)
    requires
        radix >= 1,
        0 <= n <= s.len(),
        number_value(s, radix) is Some,
    ensures
        number_value(s.take(n), radix) is Some,
        0 <= number_value(s.take(n), radix)->0 <= number_value(s, radix)->0,
    decreases s.len(),
{
    if s.len() == 0 || n == s.len() {
        assert(s.take(n) == s);
        lemma_number_value_grows_by_digit(s, radix);
    } else {
        let high = number_value(s.drop_last(), radix)->0;
        let low = digit_value(s.last(), radix)->0;
        lemma_number_value_grows(s.drop_last(), radix, n);
        assert(s.drop_last().take(n) == s.take(n));
        assert(high * radix + low >= high) by (nonlinear_arith)
            requires
                high >= 0,
                low >= 0,
                radix >= 1,
        ;
    }
}

proof fn lemma_number_value_grows_by_digit(s: Seq<char>, radix: int)
    requires
        radix >= 1,
        number_value(s, radix) is Some,
    ensures
        number_value(s, radix)->0 >= 0,
    decreases s.len(),
{
    if s.len() > 0 {
        let high = number_value(s.drop_last(), radix)->0;
        let low = digit_value(s.last(), radix)->0;
        lemma_number_value_grows_by_digit(s.drop_last(), radix);
        assert(high * radix + low >= 0) by (nonlinear_arith)
            requires
                high >= 0,
                low >= 0,
                radix >= 1,
        ;
    }
}

/// The digit that writes `value`: `0` to `9`, then `a` to `f`.
pub open spec fn digit_of(value: int) -> char {
    if value == 0 {
        '0'
    } else if value == 1 {
        '1'
    } else if value == 2 {
        '2'
    } else if value == 3 {
        '3'
    } else if value == 4 {
        '4'
    } else if value == 5 {
        '5'
    } else if value == 6 {
        '6'
    } else if value == 7 {
        '7'
    } else if value == 8 {
        '8'
    } else if value == 9 {
        '9'
    } else if value == 10 {
        'a'
    } else if value == 11 {
        'b'
    } else if value == 12 {
        'c'
    } else if value == 13 {
        'd'
    } else if value == 14 {
        'e'
    } else {
        'f'
    }
}

/// `value` written in base ten, without leading zeros.
pub open spec fn decimal(value: u8) -> Seq<char> {
    if value < 10 {
        seq![digit_of(value as int)]
    } else if value < 100 {
        seq![digit_of(value as int / 10), digit_of(value as int % 10)]
    } else {
        seq![
            digit_of(value as int / 100),
            digit_of(value as int / 10 % 10),
            digit_of(value as int % 10),
        ]
    }
}

/// `value` written as two digits in base sixteen.
pub open spec fn hex_pair(value: u8) -> Seq<char> {
    seq![digit_of(value as int / 16), digit_of(value as int % 16)]
}

/// A digit has the value that it writes, and is no sign or separator.
pub proof fn lemma_digit_of(value: int, radix: int)
    requires
        0 <= value < radix,
        radix == 10 || radix == 16,
    ensures
        digit_value(digit_of(value), radix) == Some(value),
        digit_of(value) != '+',
        digit_of(value) != ',',
        digit_of(value) != '=',
        digit_of(value) != '\n',
{
}

/// A number written in base ten reads as that number.
pub proof fn lemma_decimal_reads_back(value: u8)
    ensures
        u8_value(decimal(value), 10) == Some(value),
        !decimal(value).contains(','),
        !decimal(value).contains('='),
        !decimal(value).contains('\n'),
{
    let text = decimal(value);
    let v = value as int;
    assert forall|k: int| 0 <= k < text.len() implies #[trigger] text[k] != ',' && text[k] != '='
        && text[k] != '\n' && text[k] != '+' && digit_value(text[k], 10) is Some by {
        if value < 10 {
            lemma_digit_of(v, 10);
        } else if value < 100 {
            lemma_digit_of(v / 10, 10);
            lemma_digit_of(v % 10, 10);
        } else {
            lemma_digit_of(v / 100, 10);
            lemma_digit_of(v / 10 % 10, 10);
            lemma_digit_of(v % 10, 10);
        }
    }
    reveal_with_fuel(number_value, 4);
    if value < 10 {
        lemma_digit_of(v, 10);
        assert(text.drop_last() == Seq::<char>::empty());
    } else if value < 100 {
        lemma_digit_of(v / 10, 10);
        lemma_digit_of(v % 10, 10);
        assert(text.drop_last() == seq![digit_of(v / 10)]);
        assert(text.drop_last().drop_last() == Seq::<char>::empty());
    } else {
        lemma_digit_of(v / 100, 10);
        lemma_digit_of(v / 10 % 10, 10);
        lemma_digit_of(v % 10, 10);
        assert(text.drop_last() == seq![digit_of(v / 100), digit_of(v / 10 % 10)]);
        assert(text.drop_last().drop_last() == seq![digit_of(v / 100)]);
        assert(text.drop_last().drop_last().drop_last() == Seq::<char>::empty());
    }
}

/// A number written as two digits in base sixteen reads as that number.
pub proof fn lemma_hex_pair_reads_back(value: u8)
    ensures
        u8_value(hex_pair(value), 16) == Some(value),
        hex_pair(value).len() == 2,
        !hex_pair(value).contains(','),
        !hex_pair(value).contains('='),
        !hex_pair(value).contains('\n'),
{
    let text = hex_pair(value);
    let v = value as int;
    lemma_digit_of(v / 16, 16);
    lemma_digit_of(v % 16, 16);
    reveal_with_fuel(number_value, 3);
    assert(text.drop_last() == seq![digit_of(v / 16)]);
    assert(text.drop_last().drop_last() == Seq::<char>::empty());
}

/// The digit that writes `value`.
pub fn digit_char(value: u8) -> (c: char)
    requires
        value < 16,
    ensures
        c == digit_of(value as int),
{
    if value == 0 {
        '0'
    } else if value == 1 {
        '1'
    } else if value == 2 {
        '2'
    } else if value == 3 {
        '3'
    } else if value == 4 {
        '4'
    } else if value == 5 {
        '5'
    } else if value == 6 {
        '6'
    } else if value == 7 {
        '7'
    } else if value == 8 {
        '8'
    } else if value == 9 {
        '9'
    } else if value == 10 {
        'a'
    } else if value == 11 {
        'b'
    } else if value == 12 {
        'c'
    } else if value == 13 {
        'd'
    } else if value == 14 {
        'e'
    } else {
        'f'
    }
}

/// Appends `value` in base ten to `out`.
pub fn push_decimal(out: &mut Vec<char>, value: u8)
    ensures
        final(out)@ == old(out)@ + decimal(value),
{
    if value >= 100 {
        out.push(digit_char(value / 100));
    }
    if value >= 10 {
        out.push(digit_char(value / 10 % 10));
    }
    out.push(digit_char(value % 10));
}

/// Appends `value` as two digits in base sixteen to `out`.
pub fn push_hex_pair(out: &mut Vec<char>, value: u8)
    ensures
        final(out)@ == old(out)@ + hex_pair(value),
{
    out.push(digit_char(value / 16));
    out.push(digit_char(value % 16));
}

/// Appends the characters of `text` to `out`.
pub fn push_text(out: &mut Vec<char>, text: &[char])
    ensures
        final(out)@ == old(out)@ + text@,
{
    let mut i: usize = 0;
    while i < text.len()
        invariant
            i <= text@.len(),
            out@ == old(out)@ + text@.take(i as int),
        decreases text@.len() - i,
    {
        out.push(text[i]);
        assert(text@.take(i + 1) == text@.take(i as int).push(text@[i as int]));
        i += 1;
    }
    assert(text@.take(text@.len() as int) == text@);
}

/// The value of one digit.
pub fn digit(c: char, radix: u32) -> (value: Option<u32>)
    requires
        2 <= radix <= 36,
    ensures
        match value {
            Some(v) => digit_value(c, radix as int) == Some(v as int),
            None => digit_value(c, radix as int) is None,
        },
{
    let v: u32 = if '0' <= c && c <= '9' {
        c as u32 - '0' as u32
    } else if 'a' <= c && c <= 'z' {
        c as u32 - 'a' as u32 + 10
    } else if 'A' <= c && c <= 'Z' {
        c as u32 - 'A' as u32 + 10
    } else {
        radix
    };
    if v < radix {
        Some(v)
    } else {
        None
    }
}

/// Reads `text` as an unsigned 8-bit number in base `radix`.
pub fn parse_u8(text: &[char], radix: u32) -> (value: Option<u8>)
    requires
        2 <= radix <= 36,
    ensures
        value == u8_value(text@, radix as int),
{
    let start: usize = if text.len() > 0 && text[0] == '+' {
        1
    } else {
        0
    };
    if start == text.len() {
        return None;
    }
    let ghost digits = text@.skip(start as int);
    assert(digits == if start == 1 {
        text@.drop_first()
    } else {
        text@
    });
    let mut total: u32 = 0;
    let mut i: usize = start;
    assert(digits.take(0) == Seq::<char>::empty());
    while i < text.len()
        invariant
            2 <= radix <= 36,
            start <= i <= text@.len(),
            digits == text@.skip(start as int),
            digits.len() > 0,
            u8_value(text@, radix as int) == match number_value(digits, radix as int) {
                Some(v) if v <= u8::MAX => Some(v as u8),
                _ => None,
            },
            number_value(digits.take(i - start), radix as int) == Some(total as int),
            total <= u8::MAX,
        decreases text@.len() - i,
    {
        let ghost prefix = digits.take(i + 1 - start);
        assert(prefix.drop_last() == digits.take(i - start));
        assert(prefix.last() == text@[i as int]);
        match digit(text[i], radix) {
            None => {
                proof {
                    assert(number_value(prefix, radix as int) is None);
                    if number_value(digits, radix as int) is Some {
                        lemma_number_value_grows(digits, radix as int, i + 1 - start);
                    }
                }
                return None;
            },
            Some(d) => {
                assert(total * radix + d <= 255 * 36 + 36) by (nonlinear_arith)
                    requires
                        total <= 255,
                        radix <= 36,
                        d < radix,
                ;
                let next: u32 = total * radix + d;
                assert(number_value(prefix, radix as int) == Some(next as int));
                if next > 255 {
                    proof {
                        if number_value(digits, radix as int) is Some {
                            lemma_number_value_grows(digits, radix as int, i + 1 - start);
                        }
                    }
                    return None;
                }
                total = next;
            },
        }
        i += 1;
    }
    assert(digits.take(i - start) == digits);
    Some(total as u8)
}

} // verus!
