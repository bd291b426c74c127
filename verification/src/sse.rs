//! Server-sent event streams: counters, submitted text or JSON split into
//! lines, and random events.
use vstd::prelude::*;

use crate::problem::{is_decimal_numeral, law_decimal_is_numeral, ApiError};
use crate::random::{
    is_alphanumeric, one_in, random_alphanumeric, random_between, seeded_alphanumeric,
    seeded_between, seeded_one_in, Draw, Generator, Origin,
};
use crate::text::{
    decimal, decimal_string, joined, law_joined_lines_of, lemma_joined_push, lines_of, push_char, push_str, split_lines, string_of, views,
};

verus! {

/// The data of event number `i` of a counter stream: the number itself, or
/// the JSON object `{"count":i}`.
pub open spec fn counter_payload(i: nat, json: bool) -> Seq<char> {
    if json {
        "{\"count\":"@ + decimal(i) + "}"@
    } else {
        decimal(i)
    }
}

/// A counter stream in progress: it sends the numbers from `next` to
/// `count`, one event each.
#[derive(Debug)]
pub struct CounterStream {
    pub next: u64,
    pub count: u32,
    pub json: bool,
}

impl CounterStream {
    /// Whether the stream is well formed: it has not gone past its end.
    pub open spec fn wf(self) -> bool {
        1 <= self.next <= self.count as int + 1
    }

    /// Starts a counter stream of `count` events, as plain numbers or as
    /// JSON objects.
    pub fn new(count: u32, json: bool) -> (s: CounterStream)
        ensures
            s.wf(),
            s.next == 1,
            s.count == count,
            s.json == json,
    {
        CounterStream { next: 1, count, json }
    }

    /// The data of the next event; none once `count` events were sent.
    pub fn step(&mut self) -> (e: Option<String>)
        requires
            old(self).wf(),
        ensures
            final(self).wf(),
            final(self).count == old(self).count,
            final(self).json == old(self).json,
            old(self).next <= old(self).count ==> (e matches Some(d) && d@ == counter_payload(
                old(self).next as nat,
                old(self).json,
            ) && final(self).next == old(self).next + 1 && counter_run(
                old(self).next as nat,
                old(self).count as nat,
                old(self).json,
            ) == seq![d@] + counter_run(final(self).next as nat, final(self).count as nat, final(self).json)),
            old(self).next <= old(self).count ==> (e matches Some(d) && (if old(self).json {
                exists|t: Seq<char>|
                    #[trigger] is_decimal_numeral(t, old(self).next as nat) && d@ == "{\"count\":"@
                        + t + "}"@
            } else {
                is_decimal_numeral(d@, old(self).next as nat)
            })),
            old(self).next > old(self).count ==> e is None && final(self).next == old(self).next,
    {
        if self.next > self.count as u64 {
            return None;
        }
        let i = self.next as u32;
        let digits = decimal_string(i);
        proof {
            law_decimal_is_numeral(i as nat);
        }
        let data = if self.json {
            let mut d = string_of("{\"count\":");
            push_str(&mut d, digits.as_str());
            push_str(&mut d, "}");
            d
        } else {
            digits
        };
        self.next = self.next + 1;
        Some(data)
    }
}

/// The data of event number `i` is `i` written in decimal: as text, the
/// decimal numeral of `i` itself; as JSON, that numeral as the value of
/// `count`.
pub proof fn law_counter_payload_is_decimal(i: nat)
    ensures
        is_decimal_numeral(counter_payload(i, false), i),
        counter_payload(i, true) == "{\"count\":"@ + counter_payload(i, false) + "}"@,
{
    law_decimal_is_numeral(i);
}

/// The data of every event that a counter stream still sends, in order.
pub open spec fn counter_run(next: nat, count: nat, json: bool) -> Seq<Seq<char>>
    decreases count + 1 - next,
{
    if 1 <= next <= count {
        seq![counter_payload(next, json)] + counter_run(next + 1, count, json)
    } else {
        seq![]
    }
}

/// A counter stream of `count` events sends the numbers from 1 to `count`,
/// in order, and nothing else: each step sends the first event still to
/// come (`CounterStream::step`), and from the start these are exactly the
/// numbers 1 to `count`.
pub proof fn law_counter_sends_one_to_count(count: nat, json: bool)
    ensures
        counter_run(1, count, json) == Seq::new(count, |i: int| counter_payload((i + 1) as nat, json)),
{
    lemma_counter_run(1, count, json);
}

proof fn lemma_counter_run(next: nat, count: nat, json: bool)
    requires
        1 <= next <= count + 1,
    ensures
        counter_run(next, count, json) == Seq::new(
            (count + 1 - next) as nat,
            |i: int| counter_payload((next + i) as nat, json),
        ),
    decreases count + 1 - next,
{
    if next <= count {
        lemma_counter_run(next + 1, count, json);
        assert(counter_run(next, count, json) =~= Seq::new(
            (count + 1 - next) as nat,
            |i: int| counter_payload((next + i) as nat, json),
        ));
    } else {
        assert(counter_run(next, count, json) =~= Seq::new(
            (count + 1 - next) as nat,
            |i: int| counter_payload((next + i) as nat, json),
        ));
    }
}

/// The keep-alive comment of a counter stream of `count` events.
pub open spec fn counter_comment_text(count: nat, json: bool) -> Seq<char> {
    (if json { "/sse/counter/json/"@ } else { "/sse/counter/text/"@ }) + decimal(count)
}

/// Builds the keep-alive comment of a counter stream.
pub fn counter_comment(count: u32, json: bool) -> (c: String)
    ensures
        c@ == counter_comment_text(count as nat, json),
{
    let mut c = if json {
        string_of("/sse/counter/json/")
    } else {
        string_of("/sse/counter/text/")
    };
    let digits = decimal_string(count);
    push_str(&mut c, digits.as_str());
    c
}

/// Builds the keep-alive comment of a stream of `n` random events.
pub fn random_comment(n: u32) -> (c: String)
    ensures
        c@ == "/sse/random-string/"@ + decimal(n as nat),
{
    let mut c = string_of("/sse/random-string/");
    let digits = decimal_string(n);
    push_str(&mut c, digits.as_str());
    c
}

/// The events of a submitted text: one per line.
pub fn split_text(text: &str) -> (events: Vec<String>)
    ensures
        views(events@) == lines_of(text@),
{
    split_lines(text)
}

/// The pretty-printed text (`serde_json::to_string_pretty`) of the JSON
/// document that `body` holds, or none when `body` is not a JSON document.
pub uninterp spec fn pretty_json_text(body: Seq<u8>) -> Option<Seq<char>>;

/// Parses `body` as a JSON document (`serde_json::from_slice` into a
/// `Value`) and prints it with `serde_json::to_string_pretty`: the printed
/// text, which depends on the body alone, or none when the body is not JSON.
/// Printing a `Value` does not fail (its serializer fails only on a failing
/// writer or a map key that is not a string, and it writes into a growing
/// buffer and keys objects by strings), and a printed document is never
/// empty (every JSON value takes at least one character). It holds no
/// carriage return (strings escape it as `\r`) and ends with the last
/// character of its value, not with a line feed (the pretty printer writes
/// a line feed only before an entry or a closing bracket).
#[verifier::external_body]
fn pretty_json(body: &[u8]) -> (r: Option<String>)
    ensures
        match r {
            Some(t) => pretty_json_text(body@) == Some(t@) && t@.len() > 0 && t@.last() != '\n'
                && forall|i: int| 0 <= i < t@.len() ==> #[trigger] t@[i] != '\r',
            None => pretty_json_text(body@) is None,
        },
{
    match serde_json::from_slice::<serde_json::Value>(body) {
        Ok(v) => serde_json::to_string_pretty(&v).ok(),
        Err(_) => None,
    }
}

/// The events of a submitted JSON document once pretty-printed: one per
/// line of the printed text; a body that is not JSON is a bad request.
pub fn split_json_text(printed: Option<String>) -> (r: Result<Vec<String>, ApiError>)
    ensures
        match printed {
            Some(t) => r matches Ok(events) && views(events@) == lines_of(t@),
            None => r matches Err(e) && e.is(400, "Bad Request"@, "Invalid JSON body"@),
        },
{
    match printed {
        Some(t) => Ok(split_lines(t.as_str())),
        None => Err(ApiError::bad_request("Invalid JSON body")),
    }
}

/// Pretty-prints the JSON document that a request body holds and splits it
/// into events, one per line of the printed text (at least one), which
/// joined by line feeds give the printed text back; a body that is not JSON
/// is a bad request.
pub fn split_json(body: &[u8]) -> (r: Result<Vec<String>, ApiError>)
    ensures
        match pretty_json_text(body@) {
            Some(t) => r matches Ok(events) && views(events@) == lines_of(t) && events.len() > 0
                && joined(views(events@), '\n') == t,
            None => r matches Err(e) && e.is(400, "Bad Request"@, "Invalid JSON body"@),
        },
{
    let printed = pretty_json(body);
    let ghost text = match &printed {
        Some(t) => t@,
        None => Seq::<char>::empty(),
    };
    let r = split_json_text(printed);
    proof {
        if pretty_json_text(body@) is Some {
            lemma_lines_of_nonempty(text);
            law_joined_lines_of(text);
        }
    }
    r
}

/// A text that is not empty has at least one line.
proof fn lemma_lines_of_nonempty(t: Seq<char>)
    requires
        t.len() > 0,
    ensures
        lines_of(t).len() > 0,
{
}

/// Whether `s` is a random word: 4 to 32 ASCII letters and digits.
pub open spec fn is_random_word(s: Seq<char>) -> bool {
    4 <= s.len() <= 32 && forall|i: int| 0 <= i < s.len() ==> is_alphanumeric(#[trigger] s[i])
}

/// The draws that drawing a word of `len` characters takes: its length,
/// then one letter or digit per character.
pub open spec fn word_draws(len: nat) -> Seq<Draw> {
    seq![Draw::Between(4, 32)] + alphanumeric_draws(len)
}

/// `k` draws of a letter or digit.
pub open spec fn alphanumeric_draws(k: nat) -> Seq<Draw> {
    Seq::new(k, |i: int| Draw::Alphanumeric)
}

/// The first `k` characters that a generator of origin `origin` gives
/// after the draws `draws`, one letter or digit each.
pub open spec fn seeded_chars(origin: Origin, draws: Seq<Draw>, k: nat) -> Seq<char>
    decreases k,
{
    if k == 0 {
        seq![]
    } else {
        seeded_chars(origin, draws, (k - 1) as nat).push(
            seeded_alphanumeric(origin, draws + alphanumeric_draws((k - 1) as nat)),
        )
    }
}

/// The word that a generator of origin `origin` gives after the draws
/// `draws`: its length, then that many letters and digits.
pub open spec fn seeded_word(origin: Origin, draws: Seq<Draw>) -> Seq<char> {
    seeded_chars(origin, draws.push(Draw::Between(4, 32)), seeded_between(origin, draws, 4, 32) as nat)
}

proof fn lemma_seeded_chars(origin: Origin, draws: Seq<Draw>, k: nat)
    ensures
        seeded_chars(origin, draws, k).len() == k,
        forall|i: int|
            0 <= i < k ==> #[trigger] seeded_chars(origin, draws, k)[i] == seeded_alphanumeric(
                origin,
                draws + alphanumeric_draws(i as nat),
            ),
    decreases k,
{
    if k > 0 {
        lemma_seeded_chars(origin, draws, (k - 1) as nat);
        let prev = seeded_chars(origin, draws, (k - 1) as nat);
        assert forall|i: int| 0 <= i < k implies #[trigger] seeded_chars(origin, draws, k)[i]
            == seeded_alphanumeric(origin, draws + alphanumeric_draws(i as nat)) by {
            if i < k - 1 {
                assert(seeded_chars(origin, draws, k)[i] == prev[i]);
            }
        }
    }
}

/// A drawn word is its drawn length of drawn characters: the word that a
/// generator gives is as long as the number from 4 to 32 drawn first, and
/// its `i`-th character is the letter or digit drawn after that number and
/// the `i` characters before it.
pub proof fn law_seeded_word_draws(origin: Origin, draws: Seq<Draw>)
    ensures
        seeded_word(origin, draws).len() == seeded_between(origin, draws, 4, 32),
        forall|i: int|
            0 <= i < seeded_word(origin, draws).len() ==> #[trigger] seeded_word(origin, draws)[i]
                == seeded_alphanumeric(
                origin,
                draws.push(Draw::Between(4, 32)) + alphanumeric_draws(i as nat),
            ),
{
    lemma_seeded_chars(
        origin,
        draws.push(Draw::Between(4, 32)),
        seeded_between(origin, draws, 4, 32) as nat,
    );
}

/// Draws a random word: a length from 4 to 32, then that many ASCII letters
/// and digits. From a generator whose state is known, the word is the one
/// origin and the earlier draws fix.
pub fn random_string(rng: &mut Generator) -> (s: String)
    ensures
        is_random_word(s@),
        final(rng).after(*old(rng), word_draws(s@.len())),
        old(rng).known() ==> s@ == seeded_word(old(rng).origin(), old(rng).draws()),
{
    let ghost d0 = rng.draws();
    let length = random_between(rng, 4, 32);
    let ghost d1 = rng.draws();
    assert(d1 == d0.push(Draw::Between(4, 32)));
    let mut s = String::new();
    let mut i: usize = 0;
    assert(d1 + alphanumeric_draws(0) =~= d1);
    while i < length
        invariant
            4 <= length <= 32,
            i <= length,
            s@.len() == i,
            forall|k: int| 0 <= k < i ==> is_alphanumeric(#[trigger] s@[k]),
            rng.origin() == old(rng).origin(),
            rng.recorded() == old(rng).recorded(),
            d0 == old(rng).draws(),
            d1 == d0.push(Draw::Between(4, 32)),
            rng.draws() == d1 + alphanumeric_draws(i as nat),
            old(rng).known() ==> length == seeded_between(rng.origin(), d0, 4, 32),
            old(rng).known() ==> s@ == seeded_chars(rng.origin(), d1, i as nat),
        decreases length - i,
    {
        let ghost before = rng.draws();
        let c = random_alphanumeric(rng);
        push_char(&mut s, c);
        proof {
            assert(rng.draws() =~= d1 + alphanumeric_draws((i + 1) as nat));
        }
        i += 1;
    }
    assert(word_draws(s@.len()) =~= seq![Draw::Between(4, 32)] + alphanumeric_draws(length as nat));
    assert(rng.draws() =~= d0 + word_draws(s@.len()));
    s
}

/// The optional parts of a random event: a comment sent before it, and
/// its id and name.
#[derive(Debug)]
pub struct EventHead {
    pub comment: Option<String>,
    pub id: Option<String>,
    pub name: Option<String>,
}

/// Whether an optional part is absent or a random word.
pub open spec fn absent_or_word(p: Option<String>) -> bool {
    match p {
        Some(w) => is_random_word(w@),
        None => true,
    }
}

/// The text of an optional part.
pub open spec fn part_view(p: Option<String>) -> Option<Seq<char>> {
    match p {
        Some(w) => Some(w@),
        None => None,
    }
}

/// The draws that drawing an optional part present one time in `d` takes:
/// the coin, then its word if the coin came up.
pub open spec fn part_draws(p: Option<Seq<char>>, d: u32) -> Seq<Draw> {
    seq![Draw::OneIn(d)] + match p {
        Some(w) => word_draws(w.len()),
        None => Seq::<Draw>::empty(),
    }
}

/// The optional part, present one time in `d`, that a generator
/// of origin `origin` gives after the draws `draws`.
pub open spec fn seeded_part(origin: Origin, draws: Seq<Draw>, d: u32) -> Option<Seq<char>> {
    if seeded_one_in(origin, draws, d) {
        Some(seeded_word(origin, draws.push(Draw::OneIn(d))))
    } else {
        None
    }
}

/// An optional part is present exactly when its coin comes up: the part
/// that a generator gives is a word when `random_ratio(1, d)` came up true,
/// the word drawn right after that coin, and absent when it came up false.
pub proof fn law_part_follows_coin(origin: Origin, draws: Seq<Draw>, d: u32)
    ensures
        seeded_part(origin, draws, d) is Some <==> seeded_one_in(origin, draws, d),
        seeded_one_in(origin, draws, d) ==> seeded_part(origin, draws, d) == Some(
            seeded_word(origin, draws.push(Draw::OneIn(d))),
        ),
{
}

fn random_part(rng: &mut Generator, d: u32) -> (p: Option<String>)
    requires
        d > 0,
    ensures
        absent_or_word(p),
        final(rng).after(*old(rng), part_draws(part_view(p), d)),
        old(rng).known() ==> part_view(p) == seeded_part(old(rng).origin(), old(rng).draws(), d),
        old(rng).known() ==> (p is Some <==> seeded_one_in(old(rng).origin(), old(rng).draws(), d)),
        old(rng).known() ==> (p matches Some(w) ==> w@ == seeded_word(
            old(rng).origin(),
            old(rng).draws().push(Draw::OneIn(d)),
        )),
{
    let ghost d0 = rng.draws();
    let coin = one_in(rng, d);
    assert(rng.draws() =~= d0.push(Draw::OneIn(d)));
    if coin {
        let w = random_string(rng);
        assert(rng.draws() =~= d0 + part_draws(Some(w@), d));
        Some(w)
    } else {
        assert(rng.draws() =~= d0 + part_draws(None, d));
        None
    }
}

/// Draws the optional parts of a random event: a comment one time in
/// twenty, an id and a name one time in four each, each a random word.
/// From a generator whose state is known, the parts are the ones the origin
/// and the earlier draws fix.
pub fn random_event_head(rng: &mut Generator) -> (h: EventHead)
    ensures
        absent_or_word(h.comment),
        absent_or_word(h.id),
        absent_or_word(h.name),
        final(rng).after(
            *old(rng),
            part_draws(part_view(h.comment), 20) + part_draws(part_view(h.id), 4) + part_draws(
                part_view(h.name),
                4,
            ),
        ),
        old(rng).known() ==> {
            let o = old(rng).origin();
            let d0 = old(rng).draws();
            let d1 = d0 + part_draws(part_view(h.comment), 20);
            let d2 = d1 + part_draws(part_view(h.id), 4);
            &&& part_view(h.comment) == seeded_part(o, d0, 20)
            &&& part_view(h.id) == seeded_part(o, d1, 4)
            &&& part_view(h.name) == seeded_part(o, d2, 4)
            &&& (h.comment is Some <==> seeded_one_in(o, d0, 20))
            &&& (h.id is Some <==> seeded_one_in(o, d1, 4))
            &&& (h.name is Some <==> seeded_one_in(o, d2, 4))
        },
{
    let ghost d0 = rng.draws();
    let comment = random_part(rng, 20);
    let id = random_part(rng, 4);
    let name = random_part(rng, 4);
    proof {
        let a = part_draws(part_view(comment), 20);
        let b = part_draws(part_view(id), 4);
        let c = part_draws(part_view(name), 4);
        assert(rng.draws() =~= d0 + (a + b + c));
    }
    EventHead { comment, id, name }
}

/// The draws that drawing the words `ws` one after the other takes.
pub open spec fn words_draws(ws: Seq<Seq<char>>) -> Seq<Draw>
    decreases ws.len(),
{
    if ws.len() == 0 {
        seq![]
    } else {
        words_draws(ws.drop_last()) + word_draws(ws.last().len())
    }
}

/// The first `k` words that a generator of origin `origin` gives after the
/// draws `draws`.
pub open spec fn seeded_words(origin: Origin, draws: Seq<Draw>, k: nat) -> Seq<Seq<char>>
    decreases k,
{
    if k == 0 {
        seq![]
    } else {
        let prev = seeded_words(origin, draws, (k - 1) as nat);
        prev.push(seeded_word(origin, draws + words_draws(prev)))
    }
}

proof fn lemma_seeded_words_len(origin: Origin, draws: Seq<Draw>, k: nat)
    ensures
        seeded_words(origin, draws, k).len() == k,
    decreases k,
{
    if k > 0 {
        lemma_seeded_words_len(origin, draws, (k - 1) as nat);
    }
}

/// Seeded draws of words extend one another: from the same origin and draws,
/// the first `k` words are the first `k` of any longer run.
pub proof fn law_seeded_words_prefix(origin: Origin, draws: Seq<Draw>, k: nat, m: nat)
    requires
        k <= m,
    ensures
        seeded_words(origin, draws, k) == seeded_words(origin, draws, m).take(k as int),
    decreases m,
{
    lemma_seeded_words_len(origin, draws, m);
    if k < m {
        law_seeded_words_prefix(origin, draws, k, (m - 1) as nat);
        lemma_seeded_words_len(origin, draws, (m - 1) as nat);
        assert(seeded_words(origin, draws, m).take(k as int) =~= seeded_words(
            origin,
            draws,
            (m - 1) as nat,
        ).take(k as int));
    } else {
        assert(seeded_words(origin, draws, m).take(k as int) =~= seeded_words(origin, draws, m));
    }
}

/// Draws the data of a random event: `num_lines` random words, one per
/// line. From a generator whose state is known, the words are the ones the
/// origin and the earlier draws fix.
pub fn random_event_text(rng: &mut Generator, num_lines: usize) -> (t: String)
    ensures
        exists|words: Seq<Seq<char>>|
            words.len() == num_lines && (forall|i: int|
                0 <= i < words.len() ==> is_random_word(#[trigger] words[i])) && t@ == joined(
                words,
                '\n',
            ) && final(rng).after(*old(rng), words_draws(words)) && (old(rng).known() ==> words
                == seeded_words(old(rng).origin(), old(rng).draws(), num_lines as nat)),
{
    let mut t = String::new();
    let ghost d0 = rng.draws();
    let ghost mut words: Seq<Seq<char>> = seq![];
    let mut i: usize = 0;
    assert(d0 + words_draws(words) =~= d0);
    while i < num_lines
        invariant
            i <= num_lines,
            words.len() == i,
            forall|k: int| 0 <= k < words.len() ==> is_random_word(#[trigger] words[k]),
            t@ == joined(words, '\n'),
            d0 == old(rng).draws(),
            rng.origin() == old(rng).origin(),
            rng.recorded() == old(rng).recorded(),
            rng.draws() == d0 + words_draws(words),
            old(rng).known() ==> words == seeded_words(rng.origin(), d0, i as nat),
        decreases num_lines - i,
    {
        let w = random_string(rng);
        let ghost before = words;
        if i > 0 {
            push_char(&mut t, '\n');
        }
        push_str(&mut t, w.as_str());
        proof {
            words = words.push(w@);
            lemma_joined_push(before, w@, '\n');
            if i == 0 {
                assert(t@ =~= w@);
            } else {
                assert(t@ =~= joined(before, '\n').push('\n') + w@);
            }
            assert(words.drop_last() =~= before);
            assert(rng.draws() =~= d0 + words_draws(words));
        }
        i += 1;
    }
    t
}

/// A stream of random events in progress: how many are still to come.
#[derive(Debug)]
pub struct RandomStream {
    pub remaining: u32,
}

impl RandomStream {
    /// Starts a stream of `n` random events.
    pub fn new(n: u32) -> (s: RandomStream)
        ensures
            s.remaining == n,
    {
        RandomStream { remaining: n }
    }

    /// Whether another event is due, counting it as sent.
    pub fn start_event(&mut self) -> (due: bool)
        ensures
            due == (old(self).remaining > 0),
            final(self).remaining == if due { old(self).remaining - 1 } else { 0 },
    {
        if self.remaining > 0 {
            self.remaining = self.remaining - 1;
            true
        } else {
            false
        }
    }
}

} // verus!
