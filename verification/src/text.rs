//! Strings and lists of strings, seen as sequences of characters.

pub mod scan;

use vstd::prelude::*;
use vstd::string::StringExecFns;

verus! {

/// `needle` stands in `hay` at character offset `i`.
pub open spec fn occurs_at(hay: Seq<char>, needle: Seq<char>, i: int) -> bool {
    0 <= i && i + needle.len() <= hay.len() && hay.subrange(i, i + needle.len()) == needle
}

/// `needle` is a contiguous part of `hay`. The empty text is part of every
/// text.
pub open spec fn is_substring(needle: Seq<char>, hay: Seq<char>) -> bool {
    exists|i: int| occurs_at(hay, needle, i)
}

/// The lowercase form of a text, as `str::to_lowercase` gives it.
pub uninterp spec fn lowercase(s: Seq<char>) -> Seq<char>;

/// `c` is white space in the sense of `char::is_whitespace`.
pub uninterp spec fn is_space(c: char) -> bool;

/// Every character of `s` is white space.
pub open spec fn is_blank(s: Seq<char>) -> bool {
    forall|i: int| 0 <= i < s.len() ==> is_space(#[trigger] s[i])
}

/// The texts held by a list of strings.
pub open spec fn texts(list: Seq<String>) -> Seq<Seq<char>> {
    list.map_values(|s: String| s@)
}

/// The text held by an optional string.
pub open spec fn opt_text(s: Option<String>) -> Option<Seq<char>> {
    match s {
        Some(s) => Some(s@),
        None => None,
    }
}

/// `list` without the repetitions: of equal texts only the first stays.
pub open spec fn unique(list: Seq<Seq<char>>) -> Seq<Seq<char>>
    decreases list.len(),
{
    if list.len() == 0 {
        list
    } else {
        let front = unique(list.drop_last());
        if front.contains(list.last()) {
            front
        } else {
            front.push(list.last())
        }
    }
}

/// `unique` yields a list without repetitions that holds the same texts.
pub proof fn lemma_unique(list: Seq<Seq<char>>)
    ensures
        unique(list).no_duplicates(),
        forall|t: Seq<char>| unique(list).contains(t) <==> list.contains(t),
        list.no_duplicates() ==> unique(list) == list,
    decreases list.len(),
{
    if list.len() > 0 {
        let front = list.drop_last();
        let last = list.last();
        lemma_unique(front);
        let out = unique(list);
        assert(out == if unique(front).contains(last) {
            unique(front)
        } else {
            unique(front).push(last)
        });
        assert forall|t: Seq<char>| out.contains(t) <==> list.contains(t) by {
            if list.contains(t) {
                let i = choose|i: int| 0 <= i < list.len() && list[i] == t;
                if i < front.len() {
                    assert(front[i] == t);
                    assert(front.contains(t));
                    assert(unique(front).contains(t));
                    let j = choose|j: int| 0 <= j < unique(front).len() && unique(front)[j] == t;
                    assert(out[j] == t);
                } else {
                    assert(t == last);
                    if !unique(front).contains(last) {
                        assert(out[out.len() - 1] == t);
                    }
                }
            }
            if out.contains(t) {
                let j = choose|j: int| 0 <= j < out.len() && out[j] == t;
                if j < unique(front).len() {
                    assert(unique(front)[j] == t);
                    assert(unique(front).contains(t));
                    assert(front.contains(t));
                    let i = choose|i: int| 0 <= i < front.len() && front[i] == t;
                    assert(list[i] == t);
                } else {
                    assert(list[list.len() - 1] == t);
                }
            }
        }
        if list.no_duplicates() {
            assert(front.no_duplicates());
            if front.contains(last) {
                let i = choose|i: int| 0 <= i < front.len() && front[i] == last;
                assert(list[i] == list[list.len() - 1]);
            }
            assert(out =~= list);
        }
    }
}

/// Whether `needle` is a contiguous part of `hay`, through `str::contains`.
///
/// The standard library documents `contains` with a string pattern as the
/// test for a matching sub-slice; on valid UTF-8 a byte match is a match of
/// characters.
#[verifier::external_body]
pub(crate) fn str_contains(hay: &str, needle: &str) -> (r: bool)
    ensures
        r == is_substring(needle@, hay@),
{
    hay.contains(needle)
}

/// The lowercase form of `s`, through `str::to_lowercase`.
///
/// The mapping follows the Unicode tables of the standard library; the
/// contract gives it the name `lowercase` and says no more about it.
#[verifier::external_body]
pub(crate) fn str_to_lowercase(s: &str) -> (r: String)
    ensures
        r@ == lowercase(s@),
{
    s.to_lowercase()
}

/// Whether `c` is white space, through `char::is_whitespace`.
///
/// The standard library decides by the Unicode property `White_Space`; the
/// contract gives the answer the name `is_space`.
#[verifier::external_body]
pub(crate) fn char_is_whitespace(c: char) -> (r: bool)
    ensures
        r == is_space(c),
{
    c.is_whitespace()
}

/// Whether `s` holds nothing but white space.
pub fn blank(s: &str) -> (r: bool)
    ensures
        r == is_blank(s@),
{
    let chars = chars_of(s);
    let mut i: usize = 0;
    while i < chars.len()
        invariant
            chars@ == s@,
            i <= chars@.len(),
            forall|j: int| 0 <= j < i ==> is_space(#[trigger] s@[j]),
        decreases chars@.len() - i,
    {
        if !char_is_whitespace(chars[i]) {
            return false;
        }
        i += 1;
    }
    true
}

/// The characters of `s`.
pub fn chars_of(s: &str) -> (r: Vec<char>)
    ensures
        r@ == s@,
{
    broadcast use vstd::string::group_string_axioms;

    let mut out: Vec<char> = Vec::new();
    for c in it: s.chars()
        invariant
            it.seq() == s@,
            out@.len() == it.index(),
            forall|j: int| 0 <= j < out@.len() ==> out@[j] == it.seq()[j],
    {
        out.push(c);
    }
    assert(out@ =~= s@);
    out
}

/// The string made of `chars`, through `String::from_iter`.
#[verifier::external_body]
pub(crate) fn string_of(chars: &Vec<char>) -> (r: String)
    ensures
        r@ == chars@,
{
    String::from_iter(chars.iter())
}

/// Whether two strings read the same.
pub fn same_text(a: &str, b: &str) -> (r: bool)
    ensures
        r == (a@ == b@),
{
    a.to_owned() == b.to_owned()
}

/// The texts of `list` in one text, with `sep` between neighbours.
pub open spec fn joined(list: Seq<Seq<char>>, sep: Seq<char>) -> Seq<char>
    decreases list.len(),
{
    if list.len() == 0 {
        Seq::empty()
    } else if list.len() == 1 {
        list[0]
    } else {
        joined(list.drop_last(), sep) + sep + list.last()
    }
}

/// The strings of `list` in one string, with `sep` between neighbours.
pub fn join_texts(list: &Vec<String>, sep: &str) -> (r: String)
    ensures
        r@ == joined(texts(list@), sep@),
{
    let mut out = String::new();
    let mut i: usize = 0;
    assert(texts(list@).take(0) =~= Seq::<Seq<char>>::empty());
    while i < list.len()
        invariant
            i <= list@.len(),
            out@ == joined(texts(list@).take(i as int), sep@),
        decreases list@.len() - i,
    {
        proof {
            let longer = texts(list@).take(i + 1);
            assert(longer.drop_last() =~= texts(list@).take(i as int));
            assert(longer.last() == list@[i as int]@);
            if i == 0 {
                assert(Seq::<char>::empty() + list@[0]@ =~= list@[0]@);
            }
        }
        if i > 0 {
            out.append(sep);
        }
        out.append(list[i].as_str());
        i += 1;
    }
    proof {
        assert(texts(list@).take(list@.len() as int) =~= texts(list@));
    }
    out
}

/// Whether `key` is a contiguous part of `title` or of `content`.
pub fn holds_text(title: &str, content: &str, key: &str) -> (r: bool)
    ensures
        r == (is_substring(key@, title@) || is_substring(key@, content@)),
{
    str_contains(title, key) || str_contains(content, key)
}

/// The position of the first string of `list` that reads `key`.
pub fn find_text(list: &Vec<String>, key: &str) -> (r: Option<usize>)
    ensures
        match r {
            Some(i) => {
                &&& i < list@.len()
                &&& list@[i as int]@ == key@
                &&& forall|j: int| 0 <= j < i ==> (#[trigger] list@[j])@ != key@
            },
            None => !texts(list@).contains(key@),
        },
{
    let wanted = key.to_owned();
    let mut i: usize = 0;
    while i < list.len()
        invariant
            i <= list@.len(),
            wanted@ == key@,
            forall|j: int| 0 <= j < i ==> (#[trigger] list@[j])@ != key@,
        decreases list@.len() - i,
    {
        if list[i] == wanted {
            return Some(i);
        }
        i += 1;
    }
    proof {
        if texts(list@).contains(key@) {
            let j = choose|j: int| 0 <= j < texts(list@).len() && texts(list@)[j] == key@;
            assert(list@[j]@ == key@);
        }
    }
    None
}

/// A copy of a list of strings.
pub fn copy_texts(list: &Vec<String>) -> (r: Vec<String>)
    ensures
        texts(r@) == texts(list@),
{
    let mut out: Vec<String> = Vec::new();
    let mut i: usize = 0;
    while i < list.len()
        invariant
            i <= list@.len(),
            out@.len() == i,
            forall|j: int| 0 <= j < i ==> (#[trigger] out@[j])@ == list@[j]@,
        decreases list@.len() - i,
    {
        out.push(list[i].clone());
        i += 1;
    }
    assert(texts(out@) =~= texts(list@));
    out
}

/// A copy of `list` without its repetitions: of equal strings only the
/// first stays.
pub fn unique_texts(list: &Vec<String>) -> (r: Vec<String>)
    ensures
        texts(r@) == unique(texts(list@)),
        texts(r@).no_duplicates(),
{
    let mut out: Vec<String> = Vec::new();
    let mut i: usize = 0;
    assert(texts(list@).take(0) =~= Seq::<Seq<char>>::empty());
    assert(texts(out@) =~= Seq::<Seq<char>>::empty());
    while i < list.len()
        invariant
            i <= list@.len(),
            texts(out@) == unique(texts(list@).take(i as int)),
        decreases list@.len() - i,
    {
        let ghost before = texts(out@);
        proof {
            let longer = texts(list@).take(i + 1);
            assert(longer.drop_last() =~= texts(list@).take(i as int));
            assert(longer.last() == list@[i as int]@);
        }
        match find_text(&out, list[i].as_str()) {
            None => {
                out.push(list[i].clone());
                assert(texts(out@) =~= before.push(list@[i as int]@));
            },
            Some(k) => {
                assert(before[k as int] == list@[i as int]@);
            },
        }
        i += 1;
    }
    proof {
        assert(texts(list@).take(list@.len() as int) =~= texts(list@));
        lemma_unique(texts(list@));
    }
    out
}

} // verus!
