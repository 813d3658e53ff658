//! The in-memory index over the live notes, with the number of notes that
//! carry each tag.

use vstd::prelude::*;
use crate::data::note::Note;
use crate::data::note::NoteView;

verus! {

/// The number of notes of `notes` that carry `tag`.
pub open spec fn uses(notes: Seq<NoteView>, tag: Seq<char>) -> nat
    decreases notes.len(),
{
    if notes.len() == 0 {
        0
    } else {
        uses(notes.drop_last(), tag) + carries(notes.last(), tag)
    }
}

/// 1 if `note` carries `tag`, else 0.
pub open spec fn carries(note: NoteView, tag: Seq<char>) -> nat {
    if note.has_tag(tag) {
        1
    } else {
        0
    }
}

/// The tags that some note of `notes` carries, each with the number of notes
/// that carry it. No tag is mapped to zero.
pub open spec fn usage(notes: Seq<NoteView>) -> Map<Seq<char>, nat> {
    Map::new(|t: Seq<char>| uses(notes, t) > 0, |t: Seq<char>| uses(notes, t))
}

/// No two notes of `notes` have the same identifier.
pub open spec fn distinct_ids(notes: Seq<NoteView>) -> bool {
    forall|i: int, j: int|
        0 <= i < notes.len() && 0 <= j < notes.len() && i != j ==> (#[trigger] notes[i]).id != (
        #[trigger] notes[j]).id
}

/// Some note of `notes` has the identifier `id`.
pub open spec fn holds_id(notes: Seq<NoteView>, id: Seq<char>) -> bool {
    exists|i: int| 0 <= i < notes.len() && (#[trigger] notes[i]).id == id
}

/// The position of the note with the identifier `id`; meaningful when
/// `holds_id(notes, id)`.
pub open spec fn index_of_id(notes: Seq<NoteView>, id: Seq<char>) -> int {
    choose|i: int| 0 <= i < notes.len() && (#[trigger] notes[i]).id == id
}

/// `notes` with `note` in the place of the note that has its identifier, or
/// at the end if there is none.
pub open spec fn put(notes: Seq<NoteView>, note: NoteView) -> Seq<NoteView> {
    if holds_id(notes, note.id) {
        notes.update(index_of_id(notes, note.id), note)
    } else {
        notes.push(note)
    }
}

/// `notes` without the note that has the identifier `id`.
pub open spec fn without(notes: Seq<NoteView>, id: Seq<char>) -> Seq<NoteView> {
    if holds_id(notes, id) {
        notes.remove(index_of_id(notes, id))
    } else {
        notes
    }
}

/// What a list of references to notes holds.
pub open spec fn note_views(list: Seq<&Note>) -> Seq<NoteView> {
    Seq::new(list.len(), |i: int| list[i]@)
}

/// What a list of tags with their counts holds: the tags are distinct, and
/// the map sends each to its count.
pub open spec fn counted(list: Seq<(String, usize)>) -> Map<Seq<char>, nat> {
    Map::new(
        |t: Seq<char>| exists|i: int| 0 <= i < list.len() && (#[trigger] list[i]).0@ == t,
        |t: Seq<char>|
            list[choose|i: int| 0 <= i < list.len() && (#[trigger] list[i]).0@ == t].1 as nat,
    )
}

/// The tags of a list of tags with their counts are distinct.
pub open spec fn distinct_tags(list: Seq<(String, usize)>) -> bool {
    forall|i: int, j: int|
        0 <= i < list.len() && 0 <= j < list.len() && i != j ==> (#[trigger] list[i]).0@ != (
        #[trigger] list[j]).0@
}

/// A tag is carried by at most as many notes as there are.
pub proof fn lemma_uses_bound(notes: Seq<NoteView>, tag: Seq<char>)
    ensures
        uses(notes, tag) <= notes.len(),
    decreases notes.len(),
{
    if notes.len() > 0 {
        lemma_uses_bound(notes.drop_last(), tag);
    }
}

/// Adding a note adds one use of each of its tags.
pub proof fn lemma_uses_push(notes: Seq<NoteView>, note: NoteView, tag: Seq<char>)
    ensures
        uses(notes.push(note), tag) == uses(notes, tag) + carries(note, tag),
{
    assert(notes.push(note).drop_last() =~= notes);
}

/// Taking a note out takes away one use of each of its tags.
pub proof fn lemma_uses_remove(notes: Seq<NoteView>, i: int, tag: Seq<char>)
    requires
        0 <= i < notes.len(),
    ensures
        uses(notes.remove(i), tag) + carries(notes[i], tag) == uses(notes, tag),
    decreases notes.len(),
{
    if i == notes.len() - 1 {
        assert(notes.remove(i) =~= notes.drop_last());
    } else {
        lemma_uses_remove(notes.drop_last(), i, tag);
        assert(notes.remove(i).drop_last() =~= notes.drop_last().remove(i));
        assert(notes.remove(i).last() == notes.last());
    }
}

/// Replacing a note exchanges the uses of its tags for those of the new
/// note's tags.
pub proof fn lemma_uses_update(notes: Seq<NoteView>, i: int, note: NoteView, tag: Seq<char>)
    requires
        0 <= i < notes.len(),
    ensures
        uses(notes.update(i, note), tag) + carries(notes[i], tag) == uses(notes, tag) + carries(
            note,
            tag,
        ),
    decreases notes.len(),
{
    if i == notes.len() - 1 {
        assert(notes.update(i, note).drop_last() =~= notes.drop_last());
    } else {
        lemma_uses_update(notes.drop_last(), i, note, tag);
        assert(notes.update(i, note).drop_last() =~= notes.drop_last().update(i, note));
        assert(notes.update(i, note).last() == notes.last());
    }
}

/// After a note was put into the notes, it is the note found under its
/// identifier, identifiers are still unique, and every other identifier
/// finds what it found before.
pub proof fn lemma_put_finds(notes: Seq<NoteView>, note: NoteView)
    requires
        distinct_ids(notes),
    ensures
        distinct_ids(put(notes, note)),
        holds_id(put(notes, note), note.id),
        put(notes, note)[index_of_id(put(notes, note), note.id)] == note,
        forall|id: Seq<char>|
            id != note.id ==> (#[trigger] holds_id(put(notes, note), id)) == holds_id(notes, id),
        forall|id: Seq<char>|
            id != note.id && holds_id(notes, id) ==> (#[trigger] put(notes, note)[index_of_id(
                put(notes, note),
                id,
            )]) == notes[index_of_id(notes, id)],
{
    let after = put(notes, note);
    let at = if holds_id(notes, note.id) {
        index_of_id(notes, note.id)
    } else {
        notes.len() as int
    };
    assert(after[at] == note);
    assert(distinct_ids(after)) by {
        assert forall|i: int, j: int|
            0 <= i < after.len() && 0 <= j < after.len() && i != j implies (#[trigger] after[i]).id
            != (#[trigger] after[j]).id by {
            if i != at {
                assert(after[i] == notes[i]);
            }
            if j != at {
                assert(after[j] == notes[j]);
            }
        }
    }
    let found = index_of_id(after, note.id);
    assert(after[found].id == note.id);
    assert forall|id: Seq<char>| id != note.id implies (#[trigger] holds_id(after, id)) == holds_id(
        notes,
        id,
    ) by {
        if holds_id(after, id) {
            let i = index_of_id(after, id);
            assert(after[i].id == id);
            assert(notes[i].id == id);
        }
        if holds_id(notes, id) {
            let i = index_of_id(notes, id);
            assert(notes[i].id == id);
            assert(after[i].id == id);
        }
    }
    assert forall|id: Seq<char>| id != note.id && holds_id(notes, id) implies (#[trigger] after[index_of_id(
        after,
        id,
    )]) == notes[index_of_id(notes, id)] by {
        let i = index_of_id(notes, id);
        assert(notes[i].id == id);
        assert(after[i].id == id);
        let k = index_of_id(after, id);
        assert(after[k].id == id);
    }
}

/// After the note with an identifier was taken out of the notes, the
/// identifier finds nothing, and every other identifier finds what it found
/// before.
pub proof fn lemma_without_loses(notes: Seq<NoteView>, gone: Seq<char>)
    requires
        distinct_ids(notes),
    ensures
        distinct_ids(without(notes, gone)),
        !holds_id(without(notes, gone), gone),
        forall|id: Seq<char>|
            id != gone ==> (#[trigger] holds_id(without(notes, gone), id)) == holds_id(notes, id),
        forall|id: Seq<char>|
            id != gone && holds_id(notes, id) ==> (#[trigger] without(notes, gone)[index_of_id(
                without(notes, gone),
                id,
            )]) == notes[index_of_id(notes, id)],
{
    let after = without(notes, gone);
    if holds_id(notes, gone) {
        let at = index_of_id(notes, gone);
        assert(notes[at].id == gone);
        assert forall|i: int| 0 <= i < after.len() implies #[trigger] after[i] == notes[if i < at {
            i
        } else {
            i + 1
        }] by {}
        assert(distinct_ids(after)) by {
            assert forall|i: int, j: int|
                0 <= i < after.len() && 0 <= j < after.len() && i != j implies (
            #[trigger] after[i]).id != (#[trigger] after[j]).id by {
                let oi = if i < at {
                    i
                } else {
                    i + 1
                };
                let oj = if j < at {
                    j
                } else {
                    j + 1
                };
                assert(after[i] == notes[oi]);
                assert(after[j] == notes[oj]);
            }
        }
        if holds_id(after, gone) {
            let i = index_of_id(after, gone);
            let oi = if i < at {
                i
            } else {
                i + 1
            };
            assert(after[i] == notes[oi]);
            assert(notes[oi].id == notes[at].id);
        }
        assert forall|id: Seq<char>| id != gone implies (#[trigger] holds_id(after, id)) == holds_id(
            notes,
            id,
        ) by {
            if holds_id(after, id) {
                let i = index_of_id(after, id);
                let oi = if i < at {
                    i
                } else {
                    i + 1
                };
                assert(after[i] == notes[oi]);
                assert(notes[oi].id == id);
            }
            if holds_id(notes, id) {
                let oi = index_of_id(notes, id);
                assert(notes[oi].id == id);
                let i = if oi < at {
                    oi
                } else {
                    oi - 1
                };
                assert(after[i] == notes[oi]);
            }
        }
        assert forall|id: Seq<char>| id != gone && holds_id(notes, id) implies (
        #[trigger] after[index_of_id(after, id)]) == notes[index_of_id(notes, id)] by {
            let oi = index_of_id(notes, id);
            assert(notes[oi].id == id);
            let i = if oi < at {
                oi
            } else {
                oi - 1
            };
            assert(after[i] == notes[oi]);
            let k = index_of_id(after, id);
            assert(after[k].id == id);
            let ok = if k < at {
                k
            } else {
                k + 1
            };
            assert(after[k] == notes[ok]);
        }
    }
}

/// The counts of a notebook are exact: a tag has a count if and only if
/// some note carries it, the count is the number of notes that carry it,
/// and no count is zero.
pub proof fn lemma_tag_counts_exact(notebook: &Notebook, tag: Seq<char>)
    requires
        notebook.wf(),
    ensures
        notebook.tag_counts().contains_key(tag) <==> uses(notebook.notes(), tag) > 0,
        notebook.tag_counts().contains_key(tag) ==> notebook.tag_counts()[tag] == uses(
            notebook.notes(),
            tag,
        ) && notebook.tag_counts()[tag] > 0,
{
}

/// One tag with the number of notes that carry it.
#[derive(Debug)]
struct TagUse {
    tag: String,
    count: usize,
}

/// Some entry of `table` is for `tag`.
spec fn has_entry(table: Seq<TagUse>, tag: Seq<char>) -> bool {
    exists|i: int| 0 <= i < table.len() && (#[trigger] table[i]).tag@ == tag
}

/// The position of the entry for `tag`.
spec fn entry_of(table: Seq<TagUse>, tag: Seq<char>) -> int {
    choose|i: int| 0 <= i < table.len() && (#[trigger] table[i]).tag@ == tag
}

/// The count that `table` holds for `tag`; zero without an entry.
spec fn count_at(table: Seq<TagUse>, tag: Seq<char>) -> nat {
    if has_entry(table, tag) {
        table[entry_of(table, tag)].count as nat
    } else {
        0
    }
}

/// Each tag has at most one entry, and no entry holds zero.
spec fn table_ok(table: Seq<TagUse>) -> bool {
    &&& forall|i: int, j: int|
        0 <= i < table.len() && 0 <= j < table.len() && i != j ==> (#[trigger] table[i]).tag@ != (
        #[trigger] table[j]).tag@
    &&& forall|i: int| 0 <= i < table.len() ==> (#[trigger] table[i]).count > 0
}

/// In a table with one entry per tag, the entry at `i` gives the count of
/// its tag.
proof fn lemma_count_at_entry(table: Seq<TagUse>, i: int)
    requires
        table_ok(table),
        0 <= i < table.len(),
    ensures
        has_entry(table, table[i].tag@),
        entry_of(table, table[i].tag@) == i,
        count_at(table, table[i].tag@) == table[i].count,
{
    let t = table[i].tag@;
    assert(has_entry(table, t));
    let e = entry_of(table, t);
    assert(table[e].tag@ == t);
}

/// The position of the entry for `tag`.
fn find_entry(table: &Vec<TagUse>, tag: &str) -> (r: Option<usize>)
    requires
        table_ok(table@),
    ensures
        match r {
            Some(i) => i < table@.len() && table@[i as int].tag@ == tag@ && has_entry(
                table@,
                tag@,
            ) && entry_of(table@, tag@) == i,
            None => !has_entry(table@, tag@),
        },
{
    let wanted = tag.to_owned();
    let mut i: usize = 0;
    while i < table.len()
        invariant
            table_ok(table@),
            i <= table@.len(),
            wanted@ == tag@,
            forall|j: int| 0 <= j < i ==> (#[trigger] table@[j]).tag@ != tag@,
        decreases table@.len() - i,
    {
        if table[i].tag == wanted {
            proof {
                lemma_count_at_entry(table@, i as int);
            }
            return Some(i);
        }
        i += 1;
    }
    None
}

/// Counts one more note for `tag`.
fn count_up(table: &mut Vec<TagUse>, tag: &str)
    requires
        table_ok(old(table)@),
        count_at(old(table)@, tag@) < usize::MAX,
    ensures
        table_ok(final(table)@),
        forall|t: Seq<char>|
            #[trigger] count_at(final(table)@, t) == count_at(old(table)@, t) + (if t == tag@ {
                1nat
            } else {
                0nat
            }),
{
    let ghost before = table@;
    match find_entry(table, tag) {
        Some(i) => {
            let count = table[i].count;
            table.set(i, TagUse { tag: tag.to_owned(), count: count + 1 });
            proof {
                let after = table@;
                assert(table_ok(after));
                assert forall|t: Seq<char>|
                    #[trigger] count_at(after, t) == count_at(before, t) + (if t == tag@ {
                        1nat
                    } else {
                        0nat
                    }) by {
                    lemma_same_tags(before, after, t);
                    if t == tag@ {
                        lemma_count_at_entry(after, i as int);
                    } else if has_entry(before, t) {
                        let e = entry_of(before, t);
                        assert(after[e] == before[e]);
                        lemma_count_at_entry(after, e);
                        lemma_count_at_entry(before, e);
                    }
                }
            }
        },
        None => {
            table.push(TagUse { tag: tag.to_owned(), count: 1 });
            proof {
                let after = table@;
                let last = after.len() - 1;
                assert(table_ok(after)) by {
                    assert forall|i: int, j: int|
                        0 <= i < after.len() && 0 <= j < after.len() && i != j implies (
                    #[trigger] after[i]).tag@ != (#[trigger] after[j]).tag@ by {
                        if i < last {
                            assert(after[i] == before[i]);
                        }
                        if j < last {
                            assert(after[j] == before[j]);
                        }
                    }
                }
                assert forall|t: Seq<char>|
                    #[trigger] count_at(after, t) == count_at(before, t) + (if t == tag@ {
                        1nat
                    } else {
                        0nat
                    }) by {
                    if t == tag@ {
                        lemma_count_at_entry(after, last);
                    } else if has_entry(before, t) {
                        let e = entry_of(before, t);
                        assert(after[e] == before[e]);
                        lemma_count_at_entry(after, e);
                    } else if has_entry(after, t) {
                        let e = entry_of(after, t);
                        assert(before[e].tag@ == t);
                    }
                }
            }
        },
    }
}

/// Two tables that hold the same tags at the same positions have entries for
/// the same tags.
proof fn lemma_same_tags(a: Seq<TagUse>, b: Seq<TagUse>, t: Seq<char>)
    requires
        a.len() == b.len(),
        forall|i: int| 0 <= i < a.len() ==> (#[trigger] a[i]).tag@ == b[i].tag@,
    ensures
        has_entry(a, t) == has_entry(b, t),
{
    if has_entry(a, t) {
        let e = entry_of(a, t);
        assert(b[e].tag@ == t);
    }
    if has_entry(b, t) {
        let e = entry_of(b, t);
        assert(a[e].tag@ == t);
    }
}

/// Counts one note less for `tag`; an entry that reaches zero leaves the
/// table.
fn count_down(table: &mut Vec<TagUse>, tag: &str)
    requires
        table_ok(old(table)@),
        count_at(old(table)@, tag@) > 0,
    ensures
        table_ok(final(table)@),
        forall|t: Seq<char>|
            #[trigger] count_at(final(table)@, t) == count_at(old(table)@, t) - (if t == tag@ {
                1nat
            } else {
                0nat
            }),
{
    let ghost before = table@;
    match find_entry(table, tag) {
        Some(i) => {
            let count = table[i].count;
            if count == 1 {
                table.remove(i);
                proof {
                    let after = table@;
                    assert(table_ok(after)) by {
                        assert forall|a: int, b: int|
                            0 <= a < after.len() && 0 <= b < after.len() && a != b implies (
                        #[trigger] after[a]).tag@ != (#[trigger] after[b]).tag@ by {
                            let oa = if a < i {
                                a
                            } else {
                                a + 1
                            };
                            let ob = if b < i {
                                b
                            } else {
                                b + 1
                            };
                            assert(after[a] == before[oa]);
                            assert(after[b] == before[ob]);
                        }
                        assert forall|a: int| 0 <= a < after.len() implies (
                        #[trigger] after[a]).count > 0 by {
                            let oa = if a < i {
                                a
                            } else {
                                a + 1
                            };
                            assert(after[a] == before[oa]);
                        }
                    }
                    assert forall|t: Seq<char>|
                        #[trigger] count_at(after, t) == count_at(before, t) - (if t == tag@ {
                            1nat
                        } else {
                            0nat
                        }) by {
                        if has_entry(after, t) {
                            let e = entry_of(after, t);
                            let oe = if e < i {
                                e
                            } else {
                                e + 1
                            };
                            assert(after[e] == before[oe]);
                            lemma_count_at_entry(before, oe);
                            lemma_count_at_entry(before, i as int);
                        } else if t != tag@ && has_entry(before, t) {
                            let oe = entry_of(before, t);
                            let e = if oe < i {
                                oe
                            } else {
                                oe - 1
                            };
                            assert(after[e] == before[oe]);
                        } else if t == tag@ {
                            lemma_count_at_entry(before, i as int);
                        }
                    }
                }
            } else {
                table.set(i, TagUse { tag: tag.to_owned(), count: count - 1 });
                proof {
                    let after = table@;
                    assert(table_ok(after));
                    assert forall|t: Seq<char>|
                        #[trigger] count_at(after, t) == count_at(before, t) - (if t == tag@ {
                            1nat
                        } else {
                            0nat
                        }) by {
                        lemma_same_tags(before, after, t);
                        if t == tag@ {
                            lemma_count_at_entry(after, i as int);
                        } else if has_entry(before, t) {
                            let e = entry_of(before, t);
                            assert(after[e] == before[e]);
                            lemma_count_at_entry(after, e);
                            lemma_count_at_entry(before, e);
                        }
                    }
                }
            }
        },
        None => {
            proof {
                assert(false);
            }
        },
    }
}

/// Counts one more note for each tag of `tags`.
fn count_up_all(table: &mut Vec<TagUse>, tags: &Vec<String>)
    requires
        table_ok(old(table)@),
        crate::text::texts(tags@).no_duplicates(),
        forall|t: Seq<char>| #[trigger] count_at(old(table)@, t) < usize::MAX,
    ensures
        table_ok(final(table)@),
        forall|t: Seq<char>|
            #[trigger] count_at(final(table)@, t) == count_at(old(table)@, t) + (if crate::text::texts(
                tags@,
            ).contains(t) {
                1nat
            } else {
                0nat
            }),
{
    let ghost before = table@;
    let ghost list = crate::text::texts(tags@);
    let mut k: usize = 0;
    while k < tags.len()
        invariant
            k <= tags@.len(),
            list == crate::text::texts(tags@),
            list.no_duplicates(),
            table_ok(table@),
            forall|t: Seq<char>| #[trigger] count_at(before, t) < usize::MAX,
            forall|t: Seq<char>|
                #[trigger] count_at(table@, t) == count_at(before, t) + (if list.take(
                    k as int,
                ).contains(t) {
                    1nat
                } else {
                    0nat
                }),
        decreases tags@.len() - k,
    {
        let ghost mid = table@;
        proof {
            let t = list[k as int];
            if list.take(k as int).contains(t) {
                let j = choose|j: int| 0 <= j < k && list.take(k as int)[j] == t;
                assert(list[j] == list[k as int]);
            }
            assert(count_at(mid, t) == count_at(before, t));
        }
        count_up(table, tags[k].as_str());
        proof {
            assert forall|t: Seq<char>|
                #[trigger] count_at(table@, t) == count_at(before, t) + (if list.take(
                    k + 1,
                ).contains(t) {
                    1nat
                } else {
                    0nat
                }) by {
                assert(count_at(table@, t) == count_at(mid, t) + (if t == list[k as int] {
                    1nat
                } else {
                    0nat
                }));
                lemma_take_next(list, k as int, t);
            }
        }
        k += 1;
    }
    proof {
        assert(list.take(tags@.len() as int) =~= list);
    }
}

/// Counts one note less for each tag of `tags`.
fn count_down_all(table: &mut Vec<TagUse>, tags: &Vec<String>)
    requires
        table_ok(old(table)@),
        crate::text::texts(tags@).no_duplicates(),
        forall|t: Seq<char>|
            crate::text::texts(tags@).contains(t) ==> #[trigger] count_at(old(table)@, t) > 0,
    ensures
        table_ok(final(table)@),
        forall|t: Seq<char>|
            #[trigger] count_at(final(table)@, t) == count_at(old(table)@, t) - (if crate::text::texts(
                tags@,
            ).contains(t) {
                1nat
            } else {
                0nat
            }),
{
    let ghost before = table@;
    let ghost list = crate::text::texts(tags@);
    let mut k: usize = 0;
    while k < tags.len()
        invariant
            k <= tags@.len(),
            list == crate::text::texts(tags@),
            list.no_duplicates(),
            table_ok(table@),
            forall|t: Seq<char>| list.contains(t) ==> #[trigger] count_at(before, t) > 0,
            forall|t: Seq<char>|
                #[trigger] count_at(table@, t) == count_at(before, t) - (if list.take(
                    k as int,
                ).contains(t) {
                    1nat
                } else {
                    0nat
                }),
        decreases tags@.len() - k,
    {
        let ghost mid = table@;
        proof {
            let t = list[k as int];
            if list.take(k as int).contains(t) {
                let j = choose|j: int| 0 <= j < k && list.take(k as int)[j] == t;
                assert(list[j] == list[k as int]);
            }
            assert(list.contains(t));
            assert(count_at(mid, t) == count_at(before, t));
        }
        count_down(table, tags[k].as_str());
        proof {
            assert forall|t: Seq<char>|
                #[trigger] count_at(table@, t) == count_at(before, t) - (if list.take(
                    k + 1,
                ).contains(t) {
                    1nat
                } else {
                    0nat
                }) by {
                assert(count_at(table@, t) == count_at(mid, t) - (if t == list[k as int] {
                    1nat
                } else {
                    0nat
                }));
                lemma_take_next(list, k as int, t);
            }
        }
        k += 1;
    }
    proof {
        assert(list.take(tags@.len() as int) =~= list);
    }
}

/// The first `k + 1` entries hold what the first `k` hold, and the entry at
/// `k`.
proof fn lemma_take_next(list: Seq<Seq<char>>, k: int, t: Seq<char>)
    requires
        0 <= k < list.len(),
    ensures
        list.take(k + 1).contains(t) == (list.take(k).contains(t) || t == list[k]),
{
    let shorter = list.take(k);
    let longer = list.take(k + 1);
    if shorter.contains(t) {
        let j = choose|j: int| 0 <= j < shorter.len() && shorter[j] == t;
        assert(longer[j] == t);
    }
    if t == list[k] {
        assert(longer[k] == t);
    }
    if longer.contains(t) {
        let j = choose|j: int| 0 <= j < longer.len() && longer[j] == t;
        if j < k {
            assert(shorter[j] == t);
        }
    }
}

/// The in-memory index over the live notes.
///
/// Besides the notes it keeps, for each tag, the number of notes that carry
/// it. After every operation that number is exact, and a tag that no note
/// carries has no entry.
#[derive(Debug)]
pub struct Notebook {
    notes: Vec<Note>,
    tags: Vec<TagUse>,
}

impl Notebook {
    /// The live notes, in the order in which their identifiers came in.
    pub closed spec fn notes(&self) -> Seq<NoteView> {
        self.notes@.map_values(|n: Note| n@)
    }

    /// The number of notes counted for each tag; tags without notes are
    /// left out.
    pub closed spec fn tag_counts(&self) -> Map<Seq<char>, nat> {
        Map::new(
            |t: Seq<char>| count_at(self.tags@, t) > 0,
            |t: Seq<char>| count_at(self.tags@, t),
        )
    }

    /// The table of counts holds one positive entry per tag.
    pub closed spec fn table_wf(&self) -> bool {
        table_ok(self.tags@)
    }

    /// The notebook's invariant: every note is well formed, identifiers are
    /// unique, and the counts are those of the notes.
    pub open spec fn wf(&self) -> bool {
        &&& self.table_wf()
        &&& forall|i: int| 0 <= i < self.notes().len() ==> (#[trigger] self.notes()[i]).wf()
        &&& distinct_ids(self.notes())
        &&& self.tag_counts() == usage(self.notes())
    }

    /// The counts of the table are those of `notes`.
    proof fn lemma_counts(&self, notes: Seq<NoteView>)
        requires
            forall|t: Seq<char>| #[trigger] count_at(self.tags@, t) == uses(notes, t),
        ensures
            self.tag_counts() == usage(notes),
    {
        assert(self.tag_counts() =~= usage(notes));
    }

    /// The table counts, for every tag, the notes that carry it.
    proof fn lemma_table(&self)
        requires
            self.wf(),
        ensures
            forall|t: Seq<char>| #[trigger] count_at(self.tags@, t) == uses(self.notes(), t),
    {
        assert forall|t: Seq<char>| #[trigger] count_at(self.tags@, t) == uses(
            self.notes(),
            t,
        ) by {
            let m = self.tag_counts();
            let u = usage(self.notes());
            assert(m.contains_key(t) == u.contains_key(t));
            if m.contains_key(t) {
                assert(m[t] == u[t]);
            }
        }
    }

    /// An empty notebook.
    pub fn new() -> (r: Notebook)
        ensures
            r.wf(),
            r.notes() == Seq::<NoteView>::empty(),
            r.tag_counts() == Map::<Seq<char>, nat>::empty(),
    {
        let r = Notebook { notes: Vec::new(), tags: Vec::new() };
        proof {
            assert(r.notes() =~= Seq::<NoteView>::empty());
            assert forall|t: Seq<char>| #[trigger] count_at(r.tags@, t) == uses(r.notes(), t) by {}
            r.lemma_counts(r.notes());
            assert(r.tag_counts() =~= Map::<Seq<char>, nat>::empty());
        }
        r
    }

    /// The position of the note with the identifier `note_id`.
    fn position_of(&self, note_id: &str) -> (r: Option<usize>)
        requires
            distinct_ids(self.notes()),
        ensures
            match r {
                Some(i) => {
                    &&& i < self.notes().len()
                    &&& holds_id(self.notes(), note_id@)
                    &&& index_of_id(self.notes(), note_id@) == i
                },
                None => !holds_id(self.notes(), note_id@),
            },
    {
        let wanted = note_id.to_owned();
        let mut i: usize = 0;
        while i < self.notes.len()
            invariant
                distinct_ids(self.notes()),
                i <= self.notes@.len(),
                wanted@ == note_id@,
                forall|j: int| 0 <= j < i ==> (#[trigger] self.notes()[j]).id != note_id@,
            decreases self.notes@.len() - i,
        {
            if self.notes[i].id().to_owned() == wanted {
                proof {
                    assert(self.notes()[i as int].id == note_id@);
                    let e = index_of_id(self.notes(), note_id@);
                    assert(self.notes()[e].id == note_id@);
                }
                return Some(i);
            }
            i += 1;
        }
        None
    }

    /// Puts `note` into the notebook, in the place of the note that has its
    /// identifier if there is one.
    ///
    /// The tags of a replaced note are counted down first, and tags that no
    /// note carries any more leave the counts; then the tags of `note` are
    /// counted up.
    pub fn insert_or_replace_note(&mut self, note: Note)
        requires
            old(self).wf(),
            note.wf(),
        ensures
            final(self).wf(),
            final(self).notes() == put(old(self).notes(), note@),
            final(self).tag_counts() == usage(put(old(self).notes(), note@)),
    {
        let ghost before = self.notes();
        let ghost incoming = note@;
        proof {
            self.lemma_table();
        }
        match self.position_of(note.id()) {
            Some(i) => {
                let ghost outgoing = before[i as int];
                proof {
                    assert forall|t: Seq<char>|
                        before[i as int].tags.contains(t) implies (#[trigger] count_at(
                        self.tags@,
                        t,
                    )) > 0 by {
                        lemma_uses_remove(before, i as int, t);
                    }
                }
                count_down_all(&mut self.tags, self.notes[i].tags());
                let ghost mid = self.tags@;
                proof {
                    assert(before.len() == self.notes.len());
                    assert forall|t: Seq<char>| #[trigger] count_at(mid, t) < usize::MAX by {
                        lemma_uses_remove(before, i as int, t);
                        lemma_uses_bound(before.remove(i as int), t);
                    }
                }
                count_up_all(&mut self.tags, note.tags());
                self.notes.set(i, note);
                proof {
                    let after = self.notes();
                    assert(after =~= before.update(i as int, incoming));
                    assert forall|t: Seq<char>| #[trigger] count_at(self.tags@, t) == uses(
                        after,
                        t,
                    ) by {
                        lemma_uses_update(before, i as int, incoming, t);
                    }
                    self.lemma_counts(after);
                    assert(distinct_ids(after));
                }
            },
            None => {
                self.notes.push(note);
                let last = self.notes.len() - 1;
                proof {
                    assert(before.len() + 1 == self.notes.len());
                    assert forall|t: Seq<char>| #[trigger] count_at(self.tags@, t)
                        < usize::MAX by {
                        lemma_uses_bound(before, t);
                    }
                }
                count_up_all(&mut self.tags, self.notes[last].tags());
                proof {
                    let after = self.notes();
                    assert(after =~= before.push(incoming));
                    assert forall|t: Seq<char>| #[trigger] count_at(self.tags@, t) == uses(
                        after,
                        t,
                    ) by {
                        lemma_uses_push(before, incoming, t);
                    }
                    self.lemma_counts(after);
                    assert(distinct_ids(after));
                }
            },
        }
    }

    /// Takes the note with the identifier `note_id` out of the notebook and
    /// counts its tags down. Without such a note nothing changes.
    pub fn delete_note(&mut self, note_id: &str)
        requires
            old(self).wf(),
        ensures
            final(self).wf(),
            final(self).notes() == without(old(self).notes(), note_id@),
            final(self).tag_counts() == usage(without(old(self).notes(), note_id@)),
    {
        let ghost before = self.notes();
        proof {
            self.lemma_table();
        }
        match self.position_of(note_id) {
            Some(i) => {
                proof {
                    assert forall|t: Seq<char>|
                        before[i as int].tags.contains(t) implies (#[trigger] count_at(
                        self.tags@,
                        t,
                    )) > 0 by {
                        lemma_uses_remove(before, i as int, t);
                    }
                }
                count_down_all(&mut self.tags, self.notes[i].tags());
                self.notes.remove(i);
                proof {
                    let after = self.notes();
                    assert(after =~= before.remove(i as int));
                    assert forall|t: Seq<char>| #[trigger] count_at(self.tags@, t) == uses(
                        after,
                        t,
                    ) by {
                        lemma_uses_remove(before, i as int, t);
                    }
                    self.lemma_counts(after);
                    assert(distinct_ids(after));
                }
            },
            None => {},
        }
    }

    /// A copy of the note with the identifier `note_id`.
    pub fn find_note(&self, note_id: &str) -> (r: Option<Note>)
        requires
            self.wf(),
        ensures
            match r {
                Some(note) => holds_id(self.notes(), note_id@) && note@ == self.notes()[index_of_id(
                    self.notes(),
                    note_id@,
                )] && note.wf(),
                None => !holds_id(self.notes(), note_id@),
            },
    {
        match self.position_of(note_id) {
            Some(i) => Some(self.notes[i].clone()),
            None => None,
        }
    }

    /// The tags that some note carries, each once, with the number of notes
    /// that carry it.
    pub fn get_tags_with_count(&self) -> (r: Vec<(String, usize)>)
        requires
            self.wf(),
        ensures
            distinct_tags(r@),
            counted(r@) == self.tag_counts(),
            counted(r@) == usage(self.notes()),
    {
        let mut out: Vec<(String, usize)> = Vec::new();
        let mut i: usize = 0;
        while i < self.tags.len()
            invariant
                i <= self.tags@.len(),
                out@.len() == i,
                forall|j: int|
                    0 <= j < i ==> (#[trigger] out@[j]).0@ == self.tags@[j].tag@ && out@[j].1
                        == self.tags@[j].count,
            decreases self.tags@.len() - i,
        {
            out.push((self.tags[i].tag.clone(), self.tags[i].count));
            i += 1;
        }
        proof {
            let table = self.tags@;
            let list = out@;
            assert(distinct_tags(list)) by {
                assert forall|a: int, b: int|
                    0 <= a < list.len() && 0 <= b < list.len() && a != b implies (
                #[trigger] list[a]).0@ != (#[trigger] list[b]).0@ by {
                    assert(table[a].tag@ != table[b].tag@);
                }
            }
            assert forall|t: Seq<char>| counted(list).contains_key(t) == self.tag_counts().contains_key(
                t,
            ) by {
                if counted(list).contains_key(t) {
                    let j = choose|j: int| 0 <= j < list.len() && (#[trigger] list[j]).0@ == t;
                    lemma_count_at_entry(table, j);
                }
                if self.tag_counts().contains_key(t) {
                    let e = entry_of(table, t);
                    assert(list[e].0@ == t);
                }
            }
            assert forall|t: Seq<char>| counted(list).contains_key(t) implies counted(list)[t]
                == self.tag_counts()[t] by {
                let j = choose|j: int| 0 <= j < list.len() && (#[trigger] list[j]).0@ == t;
                lemma_count_at_entry(table, j);
            }
            assert(counted(list) =~= self.tag_counts());
        }
        out
    }

    /// The notes whose title or content holds `key`, letter case ignored, in
    /// the notebook's order. The empty key selects every note.
    pub fn filter_notes(&self, key: &str) -> (r: Vec<&Note>)
        ensures
            note_views(r@) == self.notes().filter(
                |n: NoteView| key@.len() == 0 || n.holds(key@, false),
            ),
    {
        let ghost wanted = |n: NoteView| key@.len() == 0 || n.holds(key@, false);
        let all = key.is_empty();
        let mut out: Vec<&Note> = Vec::new();
        let mut i: usize = 0;
        proof {
            assert(self.notes().take(0) =~= Seq::<NoteView>::empty());
            assert(note_views(out@) =~= self.notes().take(0).filter(wanted));
        }
        while i < self.notes.len()
            invariant
                i <= self.notes@.len(),
                all == (key@.len() == 0),
                wanted == (|n: NoteView| key@.len() == 0 || n.holds(key@, false)),
                note_views(out@) == self.notes().take(i as int).filter(wanted),
            decreases self.notes@.len() - i,
        {
            let ghost before = note_views(out@);
            proof {
                assert(self.notes().take(i + 1) =~= self.notes().take(i as int).push(
                    self.notes()[i as int],
                ));
                self.notes().take(i as int).lemma_filter_push(self.notes()[i as int], wanted);
            }
            if all || self.notes[i].contains(key, None) {
                out.push(&self.notes[i]);
                proof {
                    assert(note_views(out@) =~= before.push(self.notes()[i as int]));
                }
            }
            i += 1;
        }
        proof {
            assert(self.notes().take(self.notes@.len() as int) =~= self.notes());
        }
        out
    }

    /// The notes that carry `tag`, in the notebook's order; every note when
    /// no tag is given.
    pub fn filter_notes_by_tag(&self, tag: Option<String>) -> (r: Vec<&Note>)
        ensures
            note_views(r@) == (match tag {
                Some(t) => self.notes().filter(|n: NoteView| n.has_tag(t@)),
                None => self.notes(),
            }),
    {
        let ghost wanted = |n: NoteView|
            match tag {
                Some(t) => n.has_tag(t@),
                None => true,
            };
        let mut out: Vec<&Note> = Vec::new();
        let mut i: usize = 0;
        proof {
            assert(self.notes().take(0) =~= Seq::<NoteView>::empty());
            assert(note_views(out@) =~= self.notes().take(0).filter(wanted));
        }
        while i < self.notes.len()
            invariant
                i <= self.notes@.len(),
                wanted == (|n: NoteView|
                    match tag {
                        Some(t) => n.has_tag(t@),
                        None => true,
                    }),
                note_views(out@) == self.notes().take(i as int).filter(wanted),
            decreases self.notes@.len() - i,
        {
            let ghost before = note_views(out@);
            proof {
                assert(self.notes().take(i + 1) =~= self.notes().take(i as int).push(
                    self.notes()[i as int],
                ));
                self.notes().take(i as int).lemma_filter_push(self.notes()[i as int], wanted);
            }
            let keep = match &tag {
                Some(t) => match crate::text::find_text(self.notes[i].tags(), t.as_str()) {
                    Some(k) => {
                        proof {
                            assert(self.notes()[i as int].tags[k as int] == t@);
                        }
                        true
                    },
                    None => false,
                },
                None => true,
            };
            if keep {
                out.push(&self.notes[i]);
                proof {
                    assert(note_views(out@) =~= before.push(self.notes()[i as int]));
                }
            }
            i += 1;
        }
        proof {
            let all = self.notes();
            assert(all.take(self.notes@.len() as int) =~= all);
            if tag is Some {
                lemma_filter_same(all, wanted, |n: NoteView| n.has_tag(tag->0@));
            } else {
                lemma_filter_all(all, wanted);
            }
        }
        out
    }
}

impl Default for Notebook {
    fn default() -> (r: Notebook)
        ensures
            r.wf(),
            r.notes() == Seq::<NoteView>::empty(),
    {
        Notebook::new()
    }
}

/// Two tests that agree on every note select the same notes.
proof fn lemma_filter_same(
    notes: Seq<NoteView>,
    p: spec_fn(NoteView) -> bool,
    q: spec_fn(NoteView) -> bool,
)
    requires
        forall|n: NoteView| #[trigger] p(n) == q(n),
    ensures
        notes.filter(p) == notes.filter(q),
    decreases notes.len(),
{
    reveal_with_fuel(Seq::filter, 2);
    if notes.len() > 0 {
        lemma_filter_same(notes.drop_last(), p, q);
        assert(p(notes.last()) == q(notes.last()));
    }
}

/// A test that every note passes selects every note.
proof fn lemma_filter_all(notes: Seq<NoteView>, p: spec_fn(NoteView) -> bool)
    requires
        forall|n: NoteView| #[trigger] p(n),
    ensures
        notes.filter(p) == notes,
    decreases notes.len(),
{
    reveal_with_fuel(Seq::filter, 2);
    if notes.len() > 0 {
        lemma_filter_all(notes.drop_last(), p);
        assert(p(notes.last()));
        assert(notes.drop_last().push(notes.last()) =~= notes);
    }
}

} // verus!
