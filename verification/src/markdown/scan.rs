//! Searching the bytes of a text.

use vstd::prelude::*;

verus! {

/// The line feed.
pub const NEWLINE: u8 = 10;

/// The number sign, which begins a header.
pub const HASH: u8 = 35;

/// The opening parenthesis.
pub const PAREN_OPEN: u8 = 40;

/// The closing parenthesis.
pub const PAREN_CLOSE: u8 = 41;

/// The asterisk.
pub const STAR: u8 = 42;

/// The opening square bracket.
pub const BRACKET_OPEN: u8 = 91;

/// The closing square bracket.
pub const BRACKET_CLOSE: u8 = 93;

/// The underscore.
pub const UNDERSCORE: u8 = 95;

/// The backtick.
pub const BACKTICK: u8 = 96;

/// The tilde.
pub const TILDE: u8 = 126;

/// The number of bytes at the front of `s` that are none of `stops`.
pub open spec fn until(s: Seq<u8>, stops: Seq<u8>) -> nat
    decreases s.len(),
{
    if s.len() > 0 && !stops.contains(s[0]) {
        1 + until(s.drop_first(), stops)
    } else {
        0
    }
}

/// The number of bytes at the front of `s` that are `b`.
pub open spec fn run_of(s: Seq<u8>, b: u8) -> nat
    decreases s.len(),
{
    if s.len() > 0 && s[0] == b {
        1 + run_of(s.drop_first(), b)
    } else {
        0
    }
}

/// The number of bytes of `s` in front of the first `a` that is followed by
/// `b`; the length of `s` if there is none.
pub open spec fn pair_at(s: Seq<u8>, a: u8, b: u8) -> nat
    decreases s.len(),
{
    if s.len() < 2 {
        s.len()
    } else if s[0] == a && s[1] == b {
        0
    } else {
        1 + pair_at(s.drop_first(), a, b)
    }
}

/// `s` begins with `prefix`.
pub open spec fn has_prefix(s: Seq<u8>, prefix: Seq<u8>) -> bool {
    prefix.len() <= s.len() && s.take(prefix.len() as int) == prefix
}

/// The bytes in front of a stop are no more than the bytes.
pub proof fn lemma_until_bound(s: Seq<u8>, stops: Seq<u8>)
    ensures
        until(s, stops) <= s.len(),
        until(s, stops) < s.len() ==> stops.contains(s[until(s, stops) as int]),
    decreases s.len(),
{
    if s.len() > 0 && !stops.contains(s[0]) {
        lemma_until_bound(s.drop_first(), stops);
    }
}

/// A run is no longer than the bytes.
pub proof fn lemma_run_of_bound(s: Seq<u8>, b: u8)
    ensures
        run_of(s, b) <= s.len(),
    decreases s.len(),
{
    if s.len() > 0 && s[0] == b {
        lemma_run_of_bound(s.drop_first(), b);
    }
}

/// A pair that is found lies within the bytes.
pub proof fn lemma_pair_bound(s: Seq<u8>, a: u8, b: u8)
    ensures
        pair_at(s, a, b) <= s.len(),
        pair_at(s, a, b) < s.len() ==> pair_at(s, a, b) + 2 <= s.len() && s[pair_at(s, a, b) as int]
            == a,
    decreases s.len(),
{
    if s.len() >= 2 && !(s[0] == a && s[1] == b) {
        lemma_pair_bound(s.drop_first(), a, b);
    }
}

/// A stretch of `k` bytes that are no stops, followed by the end of the bytes
/// or by a stop, is the stretch in front of the first stop.
proof fn lemma_until_is(s: Seq<u8>, stops: Seq<u8>, k: int)
    requires
        0 <= k <= s.len(),
        forall|j: int| 0 <= j < k ==> !stops.contains(#[trigger] s[j]),
        k < s.len() ==> stops.contains(s[k]),
    ensures
        until(s, stops) == k,
    decreases k,
{
    if k > 0 {
        let rest = s.drop_first();
        assert forall|j: int| 0 <= j < k - 1 implies !stops.contains(#[trigger] rest[j]) by {
            assert(rest[j] == s[j + 1]);
        }
        if k < s.len() {
            assert(rest[k - 1] == s[k]);
        }
        lemma_until_is(rest, stops, k - 1);
    }
}

/// A stretch of `k` bytes `b`, followed by the end of the bytes or by
/// another byte, is the run at the front.
proof fn lemma_run_of_is(s: Seq<u8>, b: u8, k: int)
    requires
        0 <= k <= s.len(),
        forall|j: int| 0 <= j < k ==> #[trigger] s[j] == b,
        k < s.len() ==> s[k] != b,
    ensures
        run_of(s, b) == k,
    decreases k,
{
    if k > 0 {
        let rest = s.drop_first();
        assert forall|j: int| 0 <= j < k - 1 implies #[trigger] rest[j] == b by {
            assert(rest[j] == s[j + 1]);
        }
        if k < s.len() {
            assert(rest[k - 1] == s[k]);
        }
        lemma_run_of_is(rest, b, k - 1);
    }
}

/// A position in front of which no pair begins, and at which a pair begins
/// or the bytes end, is where the first pair stands.
proof fn lemma_pair_is(s: Seq<u8>, a: u8, b: u8, k: int)
    requires
        0 <= k <= s.len(),
        forall|j: int| 0 <= j < k && j + 1 < s.len() ==> !(#[trigger] s[j] == a && s[j + 1] == b),
        k < s.len() ==> k + 1 < s.len() && s[k] == a && s[k + 1] == b,
        k == s.len() || k + 1 < s.len(),
    ensures
        pair_at(s, a, b) == if k < s.len() {
            k
        } else {
            s.len() as int
        },
    decreases s.len(),
{
    if s.len() >= 2 {
        if k > 0 {
            let rest = s.drop_first();
            assert(!(s[0] == a && s[1] == b));
            assert forall|j: int| 0 <= j < k - 1 && j + 1 < rest.len() implies !(#[trigger] rest[j]
                == a && rest[j + 1] == b) by {
                assert(rest[j] == s[j + 1]);
                assert(rest[j + 1] == s[j + 2]);
            }
            if k < s.len() {
                assert(rest[k - 1] == s[k]);
                assert(rest[k] == s[k + 1]);
            }
            lemma_pair_is(rest, a, b, k - 1);
        }
    }
}

/// Whether `b` is one of `stops`.
pub fn is_one_of(b: u8, stops: &Vec<u8>) -> (r: bool)
    ensures
        r == stops@.contains(b),
{
    let mut i: usize = 0;
    while i < stops.len()
        invariant
            i <= stops@.len(),
            forall|j: int| 0 <= j < i ==> #[trigger] stops@[j] != b,
        decreases stops@.len() - i,
    {
        if stops[i] == b {
            return true;
        }
        i += 1;
    }
    false
}

/// The position of the first byte at or behind `from` and before `to` that
/// is one of `stops`; `to` if there is none.
pub fn skip_until(input: &Vec<u8>, from: usize, to: usize, stops: &Vec<u8>) -> (r: usize)
    requires
        from <= to <= input@.len(),
    ensures
        from <= r <= to,
        r - from == until(input@.subrange(from as int, to as int), stops@),
        r < to ==> stops@.contains(input@[r as int]),
{
    let ghost s = input@.subrange(from as int, to as int);
    let mut i: usize = from;
    while i < to
        invariant
            from <= i <= to <= input@.len(),
            s == input@.subrange(from as int, to as int),
            forall|j: int| 0 <= j < i - from ==> !stops@.contains(#[trigger] s[j]),
        decreases to - i,
    {
        if is_one_of(input[i], stops) {
            proof {
                assert(s[i - from] == input@[i as int]);
                lemma_until_is(s, stops@, i - from);
            }
            return i;
        }
        proof {
            assert(s[i - from] == input@[i as int]);
        }
        i += 1;
    }
    proof {
        lemma_until_is(s, stops@, to - from);
    }
    to
}

/// The position behind the bytes `b` that stand at `from`, before `to`.
pub fn skip_run(input: &Vec<u8>, from: usize, to: usize, b: u8) -> (r: usize)
    requires
        from <= to <= input@.len(),
    ensures
        from <= r <= to,
        r - from == run_of(input@.subrange(from as int, to as int), b),
{
    let ghost s = input@.subrange(from as int, to as int);
    let mut i: usize = from;
    while i < to
        invariant
            from <= i <= to <= input@.len(),
            s == input@.subrange(from as int, to as int),
            forall|j: int| 0 <= j < i - from ==> #[trigger] s[j] == b,
        decreases to - i,
    {
        if input[i] != b {
            proof {
                assert(s[i - from] == input@[i as int]);
                lemma_run_of_is(s, b, i - from);
            }
            return i;
        }
        proof {
            assert(s[i - from] == input@[i as int]);
        }
        i += 1;
    }
    proof {
        lemma_run_of_is(s, b, to - from);
    }
    to
}

/// The position of the first `a` at or behind `from` that is followed by
/// `b` before `to`; `to` if there is none.
pub fn find_pair(input: &Vec<u8>, from: usize, to: usize, a: u8, b: u8) -> (r: usize)
    requires
        from <= to <= input@.len(),
    ensures
        from <= r <= to,
        r - from == pair_at(input@.subrange(from as int, to as int), a, b),
        r < to ==> r + 2 <= to,
{
    let ghost s = input@.subrange(from as int, to as int);
    let mut i: usize = from;
    while to - i > 1
        invariant
            from <= i <= to <= input@.len(),
            s == input@.subrange(from as int, to as int),
            forall|j: int|
                0 <= j < i - from && j + 1 < s.len() ==> !(#[trigger] s[j] == a && s[j + 1] == b),
        decreases to - i,
    {
        proof {
            assert(s[i - from] == input@[i as int]);
            assert(s[i - from + 1] == input@[i + 1]);
        }
        if input[i] == a && input[i + 1] == b {
            proof {
                lemma_pair_is(s, a, b, i - from);
            }
            return i;
        }
        i += 1;
    }
    proof {
        lemma_pair_is(s, a, b, to - from);
    }
    to
}

} // verus!
