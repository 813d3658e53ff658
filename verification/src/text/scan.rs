//! Lines, surrounding white space and words of a text.

use vstd::prelude::*;
use crate::text::char_is_whitespace;
use crate::text::is_space;
use crate::text::string_of;

verus! {

/// The number of characters at the front of `s` that are white space (with
/// `spaces`) or are not (without).
pub open spec fn run(s: Seq<char>, spaces: bool) -> nat
    decreases s.len(),
{
    if s.len() > 0 && is_space(s[0]) == spaces {
        1 + run(s.drop_first(), spaces)
    } else {
        0
    }
}

/// The number of characters at the end of `s` that are white space.
pub open spec fn tail_spaces(s: Seq<char>) -> nat
    decreases s.len(),
{
    if s.len() > 0 && is_space(s.last()) {
        1 + tail_spaces(s.drop_last())
    } else {
        0
    }
}

/// `s` without the white space at its front and at its end.
pub open spec fn trimmed(s: Seq<char>) -> Seq<char> {
    let rest = s.skip(run(s, true) as int);
    rest.take(rest.len() - tail_spaces(rest))
}

/// The number of characters of `s` before its first line feed.
pub open spec fn line_len(s: Seq<char>) -> nat
    decreases s.len(),
{
    if s.len() > 0 && s[0] != '\n' {
        1 + line_len(s.drop_first())
    } else {
        0
    }
}

/// The lines of `s`. A line ends with a line feed or with the text; the
/// line feed, and a carriage return right before it, are no part of the
/// line. An empty text has no lines, and a text that ends with a line feed
/// has no empty line after it.
pub open spec fn lines_of(s: Seq<char>) -> Seq<Seq<char>>
    decreases s.len(),
{
    if s.len() == 0 {
        Seq::empty()
    } else {
        let n = line_len(s) as int;
        if n >= s.len() {
            seq![s]
        } else {
            seq![line_text(s.take(n))] + lines_of(s.skip(n + 1))
        }
    }
}

/// A line that a line feed ended, without the carriage return before the
/// line feed.
pub open spec fn line_text(raw: Seq<char>) -> Seq<char> {
    if raw.len() > 0 && raw.last() == '\r' {
        raw.drop_last()
    } else {
        raw
    }
}

/// The words of `s`: the longest stretches without white space.
pub open spec fn words_of(s: Seq<char>) -> Seq<Seq<char>>
    decreases s.len(),
{
    let rest = s.skip(run(s, true) as int);
    if rest.len() == 0 {
        Seq::empty()
    } else {
        let n = run(rest, false) as int;
        if n == 0 {
            Seq::empty()
        } else {
            proof {
                lemma_run_bound(s, true);
                lemma_run_bound(rest, false);
            }
            seq![rest.take(n)] + words_of(rest.skip(n))
        }
    }
}

/// `s` begins with `prefix`.
pub open spec fn begins_with(s: Seq<char>, prefix: Seq<char>) -> bool {
    prefix.len() <= s.len() && s.take(prefix.len() as int) == prefix
}

/// A run is no longer than the text.
pub proof fn lemma_run_bound(s: Seq<char>, spaces: bool)
    ensures
        run(s, spaces) <= s.len(),
    decreases s.len(),
{
    if s.len() > 0 && is_space(s[0]) == spaces {
        lemma_run_bound(s.drop_first(), spaces);
    }
}

/// A stretch of `k` characters of one kind, followed by the end of the text
/// or by a character of the other kind, is the run at the front.
proof fn lemma_run_is(s: Seq<char>, spaces: bool, k: int)
    requires
        0 <= k <= s.len(),
        forall|j: int| 0 <= j < k ==> is_space(#[trigger] s[j]) == spaces,
        k < s.len() ==> is_space(s[k]) != spaces,
    ensures
        run(s, spaces) == k,
    decreases k,
{
    if k > 0 {
        let rest = s.drop_first();
        assert forall|j: int| 0 <= j < k - 1 implies is_space(#[trigger] rest[j]) == spaces by {
            assert(rest[j] == s[j + 1]);
        }
        if k < s.len() {
            assert(rest[k - 1] == s[k]);
        }
        lemma_run_is(rest, spaces, k - 1);
    }
}

/// A stretch of `k` white space characters at the end, preceded by the
/// start of the text or by another character, is the white space at the
/// end.
proof fn lemma_tail_is(s: Seq<char>, k: int)
    requires
        0 <= k <= s.len(),
        forall|j: int| s.len() - k <= j < s.len() ==> is_space(#[trigger] s[j]),
        k < s.len() ==> !is_space(s[s.len() - k - 1]),
    ensures
        tail_spaces(s) == k,
    decreases k,
{
    if k > 0 {
        let rest = s.drop_last();
        assert(is_space(s[s.len() - 1]));
        assert forall|j: int| rest.len() - (k - 1) <= j < rest.len() implies is_space(
            #[trigger] rest[j],
        ) by {
            assert(rest[j] == s[j]);
        }
        if k < s.len() {
            assert(rest[rest.len() - (k - 1) - 1] == s[s.len() - k - 1]);
        }
        lemma_tail_is(rest, k - 1);
    }
}

/// A stretch of `k` characters without line feed, followed by the end of
/// the text or by a line feed, is the first line.
proof fn lemma_line_is(s: Seq<char>, k: int)
    requires
        0 <= k <= s.len(),
        forall|j: int| 0 <= j < k ==> #[trigger] s[j] != '\n',
        k < s.len() ==> s[k] == '\n',
    ensures
        line_len(s) == k,
    decreases k,
{
    if k > 0 {
        let rest = s.drop_first();
        assert forall|j: int| 0 <= j < k - 1 implies #[trigger] rest[j] != '\n' by {
            assert(rest[j] == s[j + 1]);
        }
        if k < s.len() {
            assert(rest[k - 1] == s[k]);
        }
        lemma_line_is(rest, k - 1);
    }
}

/// A stretch of a text, from a position up to another.
#[derive(Debug, Clone, Copy, PartialEq, Eq, Structural)]
pub struct Span {
    pub start: usize,
    pub end: usize,
}

impl Span {
    /// The stretch lies within a text of `len` characters.
    pub open spec fn fits(self, len: nat) -> bool {
        self.start <= self.end <= len
    }

    /// The characters of the stretch.
    pub open spec fn of(self, s: Seq<char>) -> Seq<char> {
        s.subrange(self.start as int, self.end as int)
    }
}

/// The texts of stretches of `s`.
pub open spec fn span_texts(spans: Seq<Span>, s: Seq<char>) -> Seq<Seq<char>> {
    spans.map_values(|p: Span| p.of(s))
}

/// The length of the run at the front of a stretch: see [`run`].
pub fn run_len(chars: &Vec<char>, span: Span, spaces: bool) -> (r: usize)
    requires
        span.fits(chars@.len()),
    ensures
        r == run(span.of(chars@), spaces),
        span.start + r <= span.end,
{
    let ghost s = span.of(chars@);
    let mut i: usize = span.start;
    while i < span.end
        invariant
            span.fits(chars@.len()),
            s == span.of(chars@),
            span.start <= i <= span.end,
            forall|j: int| 0 <= j < i - span.start ==> is_space(#[trigger] s[j]) == spaces,
        decreases span.end - i,
    {
        if char_is_whitespace(chars[i]) != spaces {
            proof {
                assert(s[i - span.start] == chars@[i as int]);
                lemma_run_is(s, spaces, i - span.start);
            }
            return i - span.start;
        }
        proof {
            assert(s[i - span.start] == chars@[i as int]);
        }
        i += 1;
    }
    proof {
        lemma_run_is(s, spaces, i - span.start);
    }
    i - span.start
}

/// The stretch without the white space at its front and at its end: see
/// [`trimmed`].
pub fn trim(chars: &Vec<char>, span: Span) -> (r: Span)
    requires
        span.fits(chars@.len()),
    ensures
        r.fits(chars@.len()),
        span.start <= r.start <= r.end <= span.end,
        r.of(chars@) == trimmed(span.of(chars@)),
{
    let lead = run_len(chars, span, true);
    let start = span.start + lead;
    let ghost s = span.of(chars@);
    let ghost rest = s.skip(lead as int);
    let mut end: usize = span.end;
    proof {
        assert(rest =~= chars@.subrange(start as int, span.end as int));
    }
    while end > start && char_is_whitespace(chars[end - 1])
        invariant
            span.fits(chars@.len()),
            start <= end <= span.end,
            rest == chars@.subrange(start as int, span.end as int),
            forall|j: int| end - start <= j < rest.len() ==> is_space(#[trigger] rest[j]),
        decreases end,
    {
        proof {
            assert(rest[end - 1 - start] == chars@[end - 1]);
        }
        end -= 1;
    }
    proof {
        if end > start {
            assert(rest[end - 1 - start] == chars@[end - 1]);
        }
        lemma_tail_is(rest, span.end - end);
        assert(rest.take(rest.len() - tail_spaces(rest)) =~= chars@.subrange(
            start as int,
            end as int,
        ));
    }
    Span { start, end }
}

/// The lines of the text: see [`lines_of`].
pub fn split_lines(chars: &Vec<char>) -> (r: Vec<Span>)
    ensures
        forall|i: int| 0 <= i < r@.len() ==> (#[trigger] r@[i]).fits(chars@.len()),
        span_texts(r@, chars@) == lines_of(chars@),
{
    let mut lines: Vec<Span> = Vec::new();
    let mut start: usize = 0;
    let mut i: usize = 0;
    let n = chars.len();
    proof {
        assert(chars@.skip(0) =~= chars@);
        assert(span_texts(lines@, chars@) =~= Seq::<Seq<char>>::empty());
        assert(Seq::<Seq<char>>::empty() + lines_of(chars@) =~= lines_of(chars@));
    }
    while i < n
        invariant
            n == chars@.len(),
            start <= i <= n,
            forall|k: int| 0 <= k < lines@.len() ==> (#[trigger] lines@[k]).fits(chars@.len()),
            forall|j: int| start <= j < i ==> #[trigger] chars@[j] != '\n',
            lines_of(chars@) == span_texts(lines@, chars@) + lines_of(chars@.skip(start as int)),
        decreases n - i,
    {
        if chars[i] == '\n' {
            let end = if i > start && chars[i - 1] == '\r' {
                i - 1
            } else {
                i
            };
            let ghost before = span_texts(lines@, chars@);
            let ghost rest = chars@.skip(start as int);
            proof {
                assert forall|j: int| 0 <= j < i - start implies #[trigger] rest[j] != '\n' by {
                    assert(rest[j] == chars@[start + j]);
                }
                assert(rest[i - start] == chars@[i as int]);
                lemma_line_is(rest, i - start);
                let raw = rest.take(i - start);
                assert(raw =~= chars@.subrange(start as int, i as int));
                if i > start {
                    assert(raw.last() == chars@[i - 1]);
                }
                assert(line_text(raw) =~= chars@.subrange(start as int, end as int));
                assert(rest.skip(i - start + 1) =~= chars@.skip(i + 1));
            }
            lines.push(Span { start, end });
            proof {
                let line = chars@.subrange(start as int, end as int);
                assert(span_texts(lines@, chars@) =~= before.push(line));
                assert(before + (seq![line] + lines_of(chars@.skip(i + 1))) =~= before.push(line)
                    + lines_of(chars@.skip(i + 1)));
            }
            start = i + 1;
        }
        i += 1;
    }
    if start < n {
        let ghost before = span_texts(lines@, chars@);
        let ghost rest = chars@.skip(start as int);
        proof {
            assert forall|j: int| 0 <= j < n - start implies #[trigger] rest[j] != '\n' by {
                assert(rest[j] == chars@[start + j]);
            }
            lemma_line_is(rest, n - start);
            assert(rest =~= chars@.subrange(start as int, n as int));
        }
        lines.push(Span { start, end: n });
        proof {
            assert(span_texts(lines@, chars@) =~= before.push(rest));
            assert(before + seq![rest] =~= before.push(rest));
        }
    } else {
        proof {
            assert(chars@.skip(start as int).len() == 0);
            assert(span_texts(lines@, chars@) + Seq::<Seq<char>>::empty() =~= span_texts(
                lines@,
                chars@,
            ));
        }
    }
    lines
}

/// The words of a stretch: see [`words_of`].
pub fn split_words(chars: &Vec<char>, span: Span) -> (r: Vec<Span>)
    requires
        span.fits(chars@.len()),
    ensures
        forall|i: int| 0 <= i < r@.len() ==> (#[trigger] r@[i]).fits(chars@.len()),
        span_texts(r@, chars@) == words_of(span.of(chars@)),
{
    let mut words: Vec<Span> = Vec::new();
    let mut at: usize = span.start;
    let ghost whole = span.of(chars@);
    proof {
        assert(chars@.subrange(at as int, span.end as int) =~= whole);
        assert(span_texts(words@, chars@) =~= Seq::<Seq<char>>::empty());
        assert(Seq::<Seq<char>>::empty() + words_of(whole) =~= words_of(whole));
    }
    loop
        invariant
            span.fits(chars@.len()),
            whole == span.of(chars@),
            span.start <= at <= span.end,
            forall|k: int| 0 <= k < words@.len() ==> (#[trigger] words@[k]).fits(chars@.len()),
            words_of(whole) == span_texts(words@, chars@) + words_of(
                chars@.subrange(at as int, span.end as int),
            ),
        ensures
            span_texts(words@, chars@) == words_of(whole),
            forall|k: int| 0 <= k < words@.len() ==> (#[trigger] words@[k]).fits(chars@.len()),
        decreases span.end - at,
    {
        let ghost s = chars@.subrange(at as int, span.end as int);
        let ghost before = span_texts(words@, chars@);
        let lead = run_len(chars, Span { start: at, end: span.end }, true);
        let from = at + lead;
        let ghost rest = s.skip(lead as int);
        proof {
            assert(rest =~= chars@.subrange(from as int, span.end as int));
        }
        if from >= span.end {
            proof {
                assert(words_of(s) =~= Seq::<Seq<char>>::empty());
                assert(before + Seq::<Seq<char>>::empty() =~= before);
            }
            break ;
        }
        let n = run_len(chars, Span { start: from, end: span.end }, false);
        if n == 0 {
            proof {
                assert(words_of(s) =~= Seq::<Seq<char>>::empty());
                assert(before + Seq::<Seq<char>>::empty() =~= before);
            }
            break ;
        }
        let to = from + n;
        words.push(Span { start: from, end: to });
        proof {
            let word = chars@.subrange(from as int, to as int);
            assert(rest.take(n as int) =~= word);
            assert(rest.skip(n as int) =~= chars@.subrange(to as int, span.end as int));
            assert(span_texts(words@, chars@) =~= before.push(word));
            assert(before + (seq![word] + words_of(chars@.subrange(to as int, span.end as int)))
                =~= before.push(word) + words_of(chars@.subrange(to as int, span.end as int)));
        }
        at = to;
    }
    words
}

/// The number of words of `text`: see [`words_of`].
pub fn count_words(text: &str) -> (r: usize)
    ensures
        r == words_of(text@).len(),
{
    let chars = crate::text::chars_of(text);
    let whole = Span { start: 0, end: chars.len() };
    assert(whole.of(chars@) =~= text@);
    split_words(&chars, whole).len()
}

/// The number of characters of `text`.
pub fn count_chars(text: &str) -> (r: usize)
    ensures
        r == text@.len(),
{
    crate::text::chars_of(text).len()
}

/// Whether the stretch begins with `prefix`.
pub fn starts_with(chars: &Vec<char>, span: Span, prefix: &Vec<char>) -> (r: bool)
    requires
        span.fits(chars@.len()),
    ensures
        r == begins_with(span.of(chars@), prefix@),
{
    if prefix.len() > span.end - span.start {
        return false;
    }
    let ghost s = span.of(chars@);
    let mut i: usize = 0;
    while i < prefix.len()
        invariant
            span.fits(chars@.len()),
            s == span.of(chars@),
            prefix@.len() <= span.end - span.start,
            i <= prefix@.len(),
            forall|j: int| 0 <= j < i ==> #[trigger] s[j] == prefix@[j],
        decreases prefix@.len() - i,
    {
        if chars[span.start + i] != prefix[i] {
            proof {
                assert(s[i as int] == chars@[span.start + i]);
                assert(s.take(prefix@.len() as int)[i as int] != prefix@[i as int]);
            }
            return false;
        }
        proof {
            assert(s[i as int] == chars@[span.start + i]);
        }
        i += 1;
    }
    proof {
        assert(s.take(prefix@.len() as int) =~= prefix@);
    }
    true
}

/// The text of a stretch as a string.
pub fn span_string(chars: &Vec<char>, span: Span) -> (r: String)
    requires
        span.fits(chars@.len()),
    ensures
        r@ == span.of(chars@),
{
    let mut out: Vec<char> = Vec::new();
    let mut i: usize = span.start;
    while i < span.end
        invariant
            span.fits(chars@.len()),
            span.start <= i <= span.end,
            out@ == chars@.subrange(span.start as int, i as int),
        decreases span.end - i,
    {
        out.push(chars[i]);
        proof {
            assert(out@ =~= chars@.subrange(span.start as int, i + 1));
        }
        i += 1;
    }
    string_of(&out)
}

} // verus!
