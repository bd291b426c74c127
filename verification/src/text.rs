//! Character-level helpers shared by the handlers: decimal rendering of
//! integers and the line splitting used by the streaming endpoints.
use vstd::prelude::*;

verus! {

/// The ASCII digit for `d` (which is below ten).
pub open spec fn digit_char(d: int) -> char {
    (48 + d) as char
}

/// The decimal rendering of `n`, most significant digit first, with no
/// leading zeros (zero itself renders as `"0"`).
pub open spec fn decimal(n: nat) -> Seq<char>
    decreases n,
{
    if n < 10 {
        seq![digit_char(n as int)]
    } else {
        decimal(n / 10).push(digit_char((n % 10) as int))
    }
}

/// Appends one character to a string.
#[verifier::external_body]
pub(crate) fn push_char(s: &mut String, c: char)
    ensures
        final(s)@ == old(s)@.push(c),
{
    s.push(c)
}

/// Appends `other` to `s`.
pub(crate) fn push_str(s: &mut String, other: &str)
    ensures
        final(s)@ == old(s)@ + other@,
{
    s.append(other);
}

/// A new string holding `s`.
pub(crate) fn string_of(s: &str) -> (r: String)
    ensures
        r@ == s@,
{
    String::from_str(s)
}

fn digit_of(d: u32) -> (c: char)
    requires
        d < 10,
    ensures
        c == digit_char(d as int),
{
    let b: u8 = 48u8 + (d as u8);
    b as char
}

/// Renders `n` in decimal, as `to_string` does for unsigned integers.
pub fn decimal_string(n: u32) -> (s: String)
    ensures
        s@ == decimal(n as nat),
    decreases n,
{
    if n < 10 {
        let mut s = String::new();
        push_char(&mut s, digit_of(n));
        s
    } else {
        let mut s = decimal_string(n / 10);
        push_char(&mut s, digit_of(n % 10));
        s
    }
}

/// The characters of `s`, in order.
pub(crate) fn chars_of(s: &str) -> (v: Vec<char>)
    ensures
        v@ == s@,
{
    let mut v: Vec<char> = Vec::new();
    for c in it: s.chars()
        invariant
            it.seq() == s@,
            v@ == it.seq().take(it.index()),
    {
        v.push(c);
    }
    v
}

/// Whether `s` ends with `suffix`.
pub open spec fn has_suffix(s: Seq<char>, suffix: Seq<char>) -> bool {
    suffix.len() <= s.len() && s.skip(s.len() - suffix.len()) == suffix
}

/// Whether the characters of `v` end with those of `suffix`.
pub(crate) fn ends_with(v: &Vec<char>, suffix: &Vec<char>) -> (r: bool)
    ensures
        r == has_suffix(v@, suffix@),
{
    if suffix.len() > v.len() {
        return false;
    }
    let off = v.len() - suffix.len();
    let mut i: usize = 0;
    while i < suffix.len()
        invariant
            off == v.len() - suffix.len(),
            i <= suffix.len(),
            forall|k: int| 0 <= k < i ==> v@[off + k] == suffix@[k],
        decreases suffix.len() - i,
    {
        if v[off + i] != suffix[i] {
            assert(v@.skip(off as int)[i as int] == v@[off + i]);
            return false;
        }
        i += 1;
    }
    assert(v@.skip(off as int) =~= suffix@);
    true
}

/// A string holding `v[from..to]`.
pub(crate) fn string_from_chars(v: &Vec<char>, from: usize, to: usize) -> (s: String)
    requires
        from <= to <= v.len(),
    ensures
        s@ == v@.subrange(from as int, to as int),
{
    let mut s = String::new();
    let mut i = from;
    while i < to
        invariant
            from <= i <= to <= v.len(),
            s@ == v@.subrange(from as int, i as int),
        decreases to - i,
    {
        push_char(&mut s, v[i]);
        assert(v@.subrange(from as int, i + 1) == v@.subrange(from as int, i as int).push(v@[i as int]));
        i += 1;
    }
    s
}

/// The index of the first `c` in `s`, or the length of `s` when it holds
/// none.
pub open spec fn index_of(s: Seq<char>, c: char) -> nat
    decreases s.len(),
{
    if s.len() == 0 {
        0
    } else if s[0] == c {
        0
    } else {
        1 + index_of(s.drop_first(), c)
    }
}

/// The index of the first line feed in `s`, or its length when it has none.
pub open spec fn line_end(s: Seq<char>) -> nat {
    index_of(s, '\n')
}

/// `s` without one trailing carriage return, if it has one.
pub open spec fn strip_cr(s: Seq<char>) -> Seq<char> {
    if s.len() > 0 && s.last() == '\r' {
        s.drop_last()
    } else {
        s
    }
}

/// The lines of `s` as `str::lines` yields them: `s` is cut at each line
/// feed, a carriage return just before a line feed belongs to the line
/// ending, and a final line ending does not start another line.
pub open spec fn lines_of(s: Seq<char>) -> Seq<Seq<char>>
    decreases s.len(),
{
    if s.len() == 0 {
        seq![]
    } else if line_end(s) >= s.len() {
        seq![s]
    } else {
        seq![strip_cr(s.take(line_end(s) as int))] + lines_of(s.skip(line_end(s) as int + 1))
    }
}

/// The views of a sequence of strings.
pub open spec fn views(v: Seq<String>) -> Seq<Seq<char>> {
    v.map_values(|x: String| x@)
}

pub(crate) proof fn lemma_index_of_at(s: Seq<char>, c: char, k: int)
    requires
        0 <= k <= s.len(),
        forall|j: int| 0 <= j < k ==> s[j] != c,
        k == s.len() || s[k] == c,
    ensures
        index_of(s, c) == k,
    decreases k,
{
    if k > 0 {
        lemma_index_of_at(s.drop_first(), c, k - 1);
    }
}

/// `words` joined by `sep`.
pub open spec fn joined(words: Seq<Seq<char>>, sep: char) -> Seq<char>
    decreases words.len(),
{
    if words.len() == 0 {
        seq![]
    } else if words.len() == 1 {
        words[0]
    } else {
        words[0].push(sep) + joined(words.skip(1), sep)
    }
}

/// Joining one more word appends the separator and the word.
pub proof fn lemma_joined_push(words: Seq<Seq<char>>, w: Seq<char>, sep: char)
    ensures
        joined(words.push(w), sep) == if words.len() == 0 {
            w
        } else {
            joined(words, sep).push(sep) + w
        },
    decreases words.len(),
{
    if words.len() == 0 {
        assert(words.push(w) =~= seq![w]);
    } else if words.len() == 1 {
        assert(words.push(w).skip(1) =~= seq![w]);
        assert(joined(seq![w], sep) == w);
        assert(words.push(w)[0] == words[0]);
        assert(joined(words, sep) == words[0]);
        assert(words[0].push(sep) + w =~= joined(words, sep).push(sep) + w);
    } else {
        assert(words.push(w)[0] == words[0]);
        assert(words.push(w).skip(1) =~= words.skip(1).push(w));
        lemma_joined_push(words.skip(1), w, sep);
        assert(words[0].push(sep) + (joined(words.skip(1), sep).push(sep) + w)
            =~= (words[0].push(sep) + joined(words.skip(1), sep)).push(sep) + w);
    }
}

/// No line that `str::lines` yields holds a line feed.
pub proof fn law_lines_hold_no_line_feed(s: Seq<char>)
    ensures
        forall|i: int, j: int|
            0 <= i < lines_of(s).len() && 0 <= j < lines_of(s)[i].len() ==> #[trigger] lines_of(
                s,
            )[i][j] != '\n',
    decreases s.len(),
{
    if s.len() > 0 {
        let k = line_end(s) as int;
        lemma_index_of_before(s, '\n');
        if k < s.len() {
            law_lines_hold_no_line_feed(s.skip(k + 1));
            let first = strip_cr(s.take(k));
            assert forall|i: int, j: int|
                0 <= i < lines_of(s).len() && 0 <= j < lines_of(s)[i].len() implies #[trigger] lines_of(
                s,
            )[i][j] != '\n' by {
                if i == 0 {
                    assert(lines_of(s)[0] == first);
                    assert(first[j] == s[j]);
                } else {
                    assert(lines_of(s)[i] == lines_of(s.skip(k + 1))[i - 1]);
                }
            }
        }
    }
}

/// Every character of `s` before `index_of(s, c)` differs from `c`, and the
/// index is at most the length of `s`.
pub proof fn lemma_index_of_before(s: Seq<char>, c: char)
    ensures
        index_of(s, c) <= s.len(),
        forall|j: int| 0 <= j < index_of(s, c) ==> s[j] != c,
        index_of(s, c) < s.len() ==> s[index_of(s, c) as int] == c,
    decreases s.len(),
{
    if s.len() > 0 && s[0] != c {
        lemma_index_of_before(s.drop_first(), c);
        assert forall|j: int| 0 <= j < index_of(s, c) implies s[j] != c by {
            if j > 0 {
                assert(s[j] == s.drop_first()[j - 1]);
            }
        }
    }
}

/// Whether `w` can be a line that `str::lines` gives back as it is: it
/// holds no line feed and does not end with a carriage return.
pub open spec fn is_plain_line(w: Seq<char>) -> bool {
    &&& forall|j: int| 0 <= j < w.len() ==> #[trigger] w[j] != '\n'
    &&& !(w.len() > 0 && w.last() == '\r')
}

/// Splitting undoes joining with line feeds: lines free of line endings,
/// joined by `\n`, split back into the same lines, provided the last line
/// is not empty (a final empty line would read as a final line ending).
pub proof fn law_lines_of_joined(words: Seq<Seq<char>>)
    requires
        forall|i: int| 0 <= i < words.len() ==> is_plain_line(#[trigger] words[i]),
        words.len() > 0 ==> words.last().len() > 0,
    ensures
        lines_of(joined(words, '\n')) == words,
    decreases words.len(),
{
    if words.len() == 0 {
        assert(lines_of(joined(words, '\n')) =~= words);
    } else if words.len() == 1 {
        let w = words[0];
        assert(is_plain_line(w));
        lemma_index_of_at(w, '\n', w.len() as int);
        assert(lines_of(w) =~= seq![w]);
        assert(words =~= seq![w]);
    } else {
        let w = words[0];
        let rest = words.skip(1);
        assert(is_plain_line(w));
        assert forall|i: int| 0 <= i < rest.len() implies is_plain_line(#[trigger] rest[i]) by {
            assert(rest[i] == words[i + 1]);
        }
        assert(rest.last() == words.last());
        law_lines_of_joined(rest);
        let s = joined(words, '\n');
        let k = w.len() as int;
        assert(s == w.push('\n') + joined(rest, '\n'));
        assert forall|j: int| 0 <= j < k implies s[j] != '\n' by {
            assert(s[j] == w[j]);
        }
        lemma_index_of_at(s, '\n', k);
        assert(s.take(k) =~= w);
        assert(s.skip(k + 1) =~= joined(rest, '\n'));
        assert(strip_cr(w) == w);
        assert(lines_of(s) == seq![w] + rest);
        assert(seq![w] + rest =~= words);
    }
}

/// Joining undoes splitting: the lines of a text without carriage returns
/// that does not end with a line feed, joined by `\n`, give the text back.
pub proof fn law_joined_lines_of(t: Seq<char>)
    requires
        forall|i: int| 0 <= i < t.len() ==> #[trigger] t[i] != '\r',
        t.len() > 0 ==> t.last() != '\n',
    ensures
        joined(lines_of(t), '\n') == t,
    decreases t.len(),
{
    if t.len() > 0 {
        let k = line_end(t) as int;
        lemma_index_of_before(t, '\n');
        if k < t.len() {
            let rest = t.skip(k + 1);
            assert(rest.len() > 0) by {
                if rest.len() == 0 {
                    assert(t.last() == t[k]);
                }
            }
            assert forall|i: int| 0 <= i < rest.len() implies #[trigger] rest[i] != '\r' by {
                assert(rest[i] == t[i + k + 1]);
            }
            assert(rest.last() == t.last());
            law_joined_lines_of(rest);
            let w = t.take(k);
            if w.len() > 0 {
                assert(w.last() == t[k - 1]);
            }
            assert(strip_cr(w) == w);
            let l = lines_of(rest);
            assert(l.len() > 0);
            let all = seq![w] + l;
            assert(lines_of(t) == all);
            assert(all[0] == w);
            assert(all.skip(1) =~= l);
            assert(joined(all, '\n') == w.push('\n') + joined(l, '\n'));
            assert(t =~= w.push('\n') + rest);
        } else {
            assert(joined(seq![t], '\n') == t);
        }
    }
}

/// A final line ending does not start another line: a text that does not
/// already end with a line ending (or a carriage return) has the same lines
/// with `\n` appended.
pub proof fn law_final_line_feed(s: Seq<char>)
    requires
        s.len() > 0,
        s.last() != '\n',
        s.last() != '\r',
    ensures
        lines_of(s.push('\n')) == lines_of(s),
    decreases s.len(),
{
    let t = s.push('\n');
    let k = line_end(s) as int;
    lemma_index_of_before(s, '\n');
    assert forall|j: int| 0 <= j < k implies t[j] != '\n' by {
        assert(t[j] == s[j]);
    }
    lemma_index_of_at(t, '\n', k);
    assert(t.take(k) =~= s.take(k));
    if k == s.len() {
        assert(t.take(k) =~= s);
        assert(t.skip(k + 1) =~= Seq::<char>::empty());
        assert(strip_cr(s) == s);
        assert(lines_of(Seq::<char>::empty()) == Seq::<Seq<char>>::empty());
        assert(lines_of(t) == seq![s] + Seq::<Seq<char>>::empty());
        assert(lines_of(t) =~= lines_of(s));
    } else {
        let r = s.skip(k + 1);
        assert(r.len() > 0) by {
            if r.len() == 0 {
                assert(s.last() == s[k]);
            }
        }
        assert(r.last() == s.last());
        law_final_line_feed(r);
        assert(t.skip(k + 1) =~= r.push('\n'));
        assert(lines_of(t) == seq![strip_cr(s.take(k))] + lines_of(r.push('\n')));
        assert(lines_of(s) == seq![strip_cr(s.take(k))] + lines_of(r));
    }
}

/// Splits `text` into its lines, as `str::lines` does.
pub fn split_lines(text: &str) -> (lines: Vec<String>)
    ensures
        views(lines@) == lines_of(text@),
{
    let cs = chars_of(text);
    let n = cs.len();
    let mut lines: Vec<String> = Vec::new();
    let mut start: usize = 0;
    let mut i: usize = 0;
    assert(text@.skip(0) == text@);
    assert(views(lines@) == Seq::<Seq<char>>::empty());
    assert(views(lines@) + lines_of(text@) == lines_of(text@));
    while i < n
        invariant
            n == cs.len(),
            cs@ == text@,
            start <= i <= n,
            forall|j: int| start <= j < i ==> cs@[j] != '\n',
            lines_of(text@) == views(lines@) + lines_of(text@.skip(start as int)),
        decreases n - i,
    {
        if cs[i] == '\n' {
            let ghost rest = text@.skip(start as int);
            proof {
                lemma_index_of_at(rest, '\n', i - start);
                assert(rest.take(i - start) == text@.subrange(start as int, i as int));
                assert(rest.skip(i - start + 1) == text@.skip(i + 1));
            }
            let line = if i > start && cs[i - 1] == '\r' {
                string_from_chars(&cs, start, i - 1)
            } else {
                string_from_chars(&cs, start, i)
            };
            proof {
                let t = text@.subrange(start as int, i as int);
                if i > start && cs@[i - 1] == '\r' {
                    assert(t.drop_last() == text@.subrange(start as int, i - 1));
                }
                assert(line@ == strip_cr(rest.take(line_end(rest) as int)));
            }
            let ghost before = lines@;
            lines.push(line);
            proof {
                assert(views(lines@) == views(before).push(line@));
                assert(lines_of(rest) == seq![line@] + lines_of(text@.skip(i + 1)));
                assert(views(before) + (seq![line@] + lines_of(text@.skip(i + 1)))
                    == views(before).push(line@) + lines_of(text@.skip(i + 1)));
            }
            start = i + 1;
        }
        i += 1;
    }
    if start < n {
        let ghost rest = text@.skip(start as int);
        proof {
            lemma_index_of_at(rest, '\n', n - start);
            assert(rest == text@.subrange(start as int, n as int));
        }
        let line = string_from_chars(&cs, start, n);
        let ghost before = lines@;
        lines.push(line);
        proof {
            assert(views(lines@) == views(before).push(line@));
        }
    } else {
        assert(text@.skip(start as int).len() == 0);
        assert(views(lines@) + seq![] == views(lines@));
    }
    lines
}

} // verus!
