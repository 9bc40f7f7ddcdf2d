//! What is in a listing.

use crate::arrange::{arrange, lemma_arrange_contains, lemma_arrange_ordered};
use crate::ngx::grouping::{by_text, insert_text, lemma_by_text_strict};
use crate::ngx::key::{models, other_dir, other_dir_spec, parse_key, parse_key_spec};
use crate::ngx::key::{EntryModel, RawEntry};
use crate::ngx::listing::object_models;
use crate::number::{decimal, push_decimal};
use crate::order::text_lt;
use crate::text::{copy_text, join, join_spec, same_text, views};
use vstd::prelude::*;

verus! {

/// The entries that the listed objects stand for, in order.
pub open spec fn entries_of(objects: Seq<(Seq<char>, u64)>) -> Seq<EntryModel>
    decreases objects.len(),
{
    if objects.len() == 0 {
        seq![]
    } else {
        let o = objects.last();
        match parse_key_spec(o.0, o.1) {
            Some(e) => entries_of(objects.drop_last()).push(e),
            None => entries_of(objects.drop_last()),
        }
    }
}

/// The feature directories of the listed objects that are no entries, where
/// they are worth reporting, in order.
pub open spec fn others_of(objects: Seq<(Seq<char>, u64)>) -> Seq<Seq<char>>
    decreases objects.len(),
{
    if objects.len() == 0 {
        seq![]
    } else {
        let o = objects.last();
        match (parse_key_spec(o.0, o.1), other_dir_spec(o.0)) {
            (None, Some(dir)) => others_of(objects.drop_last()).push(dir),
            _ => others_of(objects.drop_last()),
        }
    }
}

/// The entries among listed objects, and the other feature directories.
pub fn scan_objects(objects: &Vec<(String, u64)>) -> (r: (Vec<RawEntry>, Vec<String>))
    ensures
        models(r.0@) == entries_of(object_models(objects@)),
        views(r.1@) == others_of(object_models(objects@)),
{
    let ghost all = object_models(objects@);
    let mut raw: Vec<RawEntry> = Vec::new();
    let mut others: Vec<String> = Vec::new();
    let mut i: usize = 0;
    assert(models(raw@) =~= entries_of(all.take(0)));
    assert(views(others@) =~= others_of(all.take(0)));
    while i < objects.len()
        invariant
            i <= objects@.len(),
            all == object_models(objects@),
            models(raw@) == entries_of(all.take(i as int)),
            views(others@) == others_of(all.take(i as int)),
        decreases objects@.len() - i,
    {
        let ghost some = models(raw@);
        let ghost rest = views(others@);
        assert(all.take(i + 1).drop_last() =~= all.take(i as int));
        assert(all.take(i + 1).last() == (objects@[i as int].0@, objects@[i as int].1));
        let key = objects[i].0.as_str();
        match parse_key(key, objects[i].1) {
            Some(e) => {
                let ghost entry = e@;
                raw.push(e);
                assert(models(raw@) =~= some.push(entry));
            },
            None => match other_dir(key) {
                Some(dir) => {
                    let ghost name = dir@;
                    others.push(dir);
                    assert(views(others@) =~= rest.push(name));
                },
                None => {},
            },
        }
        i = i + 1;
    }
    assert(all.take(all.len() as int) =~= all);
    (raw, others)
}

// ---------------------------------------------------------------------------
// The report on other directories
// ---------------------------------------------------------------------------

/// How often a text occurs.
pub open spec fn times(s: Seq<Seq<char>>, x: Seq<char>) -> nat
    decreases s.len(),
{
    if s.len() == 0 {
        0
    } else {
        times(s.drop_last(), x) + if s.last() == x {
            1nat
        } else {
            0nat
        }
    }
}

/// A directory with how often it occurs.
pub open spec fn dir_note(others: Seq<Seq<char>>, dir: Seq<char>) -> Seq<char> {
    dir + " ("@ + decimal(times(others, dir)) + ")"@
}

/// The report on the directories that are left out: each once, by name, with
/// the number of objects in it.
pub open spec fn others_line_spec(others: Seq<Seq<char>>) -> Seq<char> {
    "ignoring unrelated NGX feature dirs: "@ + join_spec(
        arrange(others, by_text()).map_values(|dir: Seq<char>| dir_note(others, dir)),
        ", "@,
    )
}

/// How often a text occurs.
fn count_text(v: &Vec<String>, x: &str) -> (r: usize)
    ensures
        r == times(views(v@), x@),
{
    let ghost all = views(v@);
    let mut n: usize = 0;
    let mut i: usize = 0;
    while i < v.len()
        invariant
            i <= v@.len(),
            n <= i,
            all == views(v@),
            n == times(all.take(i as int), x@),
        decreases v@.len() - i,
    {
        assert(all.take(i + 1).drop_last() =~= all.take(i as int));
        assert(all.take(i + 1).last() == v@[i as int]@);
        if same_text(v[i].as_str(), x) {
            n = n + 1;
        }
        i = i + 1;
    }
    assert(all.take(all.len() as int) =~= all);
    n
}

/// The report on the directories that are left out.
pub fn others_line(others: &Vec<String>) -> (r: String)
    ensures
        r@ == others_line_spec(views(others@)),
{
    let ghost all = views(others@);
    let mut dirs: Vec<String> = Vec::new();
    let mut i: usize = 0;
    assert(views(dirs@) =~= arrange(all.take(0), by_text()));
    while i < others.len()
        invariant
            i <= others@.len(),
            all == views(others@),
            views(dirs@) == arrange(all.take(i as int), by_text()),
        decreases others@.len() - i,
    {
        assert(all.take(i + 1).drop_last() =~= all.take(i as int));
        assert(all.take(i + 1).last() == others@[i as int]@);
        insert_text(&mut dirs, copy_text(others[i].as_str()));
        i = i + 1;
    }
    assert(all.take(all.len() as int) =~= all);
    let mut notes: Vec<String> = Vec::new();
    let mut k: usize = 0;
    while k < dirs.len()
        invariant
            k <= dirs@.len(),
            all == views(others@),
            notes@.len() == k,
            forall|j: int| 0 <= j < k ==> (#[trigger] notes@[j])@ == dir_note(all, dirs@[j]@),
        decreases dirs@.len() - k,
    {
        let mut note = copy_text(dirs[k].as_str());
        note.append(" (");
        push_decimal(&mut note, count_text(others, dirs[k].as_str()) as u64);
        note.append(")");
        notes.push(note);
        k = k + 1;
    }
    assert(views(notes@) =~= arrange(all, by_text()).map_values(
        |dir: Seq<char>| dir_note(all, dir),
    )) by {
        assert forall|j: int| 0 <= j < dirs@.len() implies views(notes@)[j] == dir_note(
            all,
            arrange(all, by_text())[j],
        ) by {
            assert(views(dirs@)[j] == dirs@[j]@);
            assert(notes@[j]@ == dir_note(all, dirs@[j]@));
        }
    }
    let mut out = copy_text("ignoring unrelated NGX feature dirs: ");
    out.append(join(&notes, ", ").as_str());
    out
}

// ---------------------------------------------------------------------------
// Namespaces
// ---------------------------------------------------------------------------

/// The namespaces of the entries, each once, in the order in which they first occur.
pub open spec fn namespaces_spec(es: Seq<EntryModel>) -> Seq<Seq<char>>
    decreases es.len(),
{
    if es.len() == 0 {
        seq![]
    } else {
        let seen = namespaces_spec(es.drop_last());
        if seen.contains(es.last().ns) {
            seen
        } else {
            seen.push(es.last().ns)
        }
    }
}

/// Whether the text is in the list.
fn holds_text(v: &Vec<String>, x: &str) -> (r: bool)
    ensures
        r == views(v@).contains(x@),
{
    let mut i: usize = 0;
    while i < v.len()
        invariant
            i <= v@.len(),
            forall|j: int| 0 <= j < i ==> #[trigger] v@[j]@ != x@,
        decreases v@.len() - i,
    {
        if same_text(v[i].as_str(), x) {
            assert(views(v@)[i as int] == x@);
            return true;
        }
        i = i + 1;
    }
    assert forall|j: int| 0 <= j < views(v@).len() implies views(v@)[j] != x@ by {
        assert(views(v@)[j] == v@[j]@);
    }
    false
}

/// The namespaces of the entries.
pub fn namespaces_in(raw: &Vec<RawEntry>) -> (r: Vec<String>)
    ensures
        views(r@) == namespaces_spec(models(raw@)),
{
    let ghost all = models(raw@);
    let mut out: Vec<String> = Vec::new();
    let mut i: usize = 0;
    assert(views(out@) =~= namespaces_spec(all.take(0)));
    while i < raw.len()
        invariant
            i <= raw@.len(),
            all == models(raw@),
            views(out@) == namespaces_spec(all.take(i as int)),
        decreases raw@.len() - i,
    {
        let ghost seen = views(out@);
        assert(all.take(i + 1).drop_last() =~= all.take(i as int));
        assert(all.take(i + 1).last() == raw@[i as int]@);
        if !holds_text(&out, raw[i].ns.as_str()) {
            out.push(copy_text(raw[i].ns.as_str()));
            assert(views(out@) =~= seen.push(raw@[i as int].ns@));
        }
        i = i + 1;
    }
    assert(all.take(all.len() as int) =~= all);
    out
}

// ---------------------------------------------------------------------------
// Laws
// ---------------------------------------------------------------------------

/// Every namespace of an entry is discovered, none twice, and nothing else is.
pub proof fn law_namespaces(es: Seq<EntryModel>)
    ensures
        namespaces_spec(es).no_duplicates(),
        forall|ns: Seq<char>|
            #[trigger] namespaces_spec(es).contains(ns) <==> exists|i: int|
                0 <= i < es.len() && (#[trigger] es[i]).ns == ns,
    decreases es.len(),
{
    if es.len() > 0 {
        let front = es.drop_last();
        let seen = namespaces_spec(front);
        let last = es.last().ns;
        law_namespaces(front);
        assert forall|ns: Seq<char>|
            #[trigger] namespaces_spec(es).contains(ns) <==> exists|i: int|
                0 <= i < es.len() && (#[trigger] es[i]).ns == ns by {
            if namespaces_spec(es).contains(ns) {
                if seen.contains(ns) {
                    let i = choose|i: int| 0 <= i < front.len() && (#[trigger] front[i]).ns == ns;
                    assert(es[i] == front[i]);
                } else {
                    let k = choose|k: int|
                        0 <= k < namespaces_spec(es).len() && namespaces_spec(es)[k] == ns;
                    assert(k == seen.len());
                    assert(es[es.len() - 1].ns == ns);
                }
            }
            if exists|i: int| 0 <= i < es.len() && (#[trigger] es[i]).ns == ns {
                let i = choose|i: int| 0 <= i < es.len() && (#[trigger] es[i]).ns == ns;
                if i < front.len() {
                    assert(front[i] == es[i]);
                    assert(seen.contains(ns));
                    let k = choose|k: int| 0 <= k < seen.len() && seen[k] == ns;
                    assert(namespaces_spec(es)[k] == ns);
                } else if !seen.contains(last) {
                    assert(namespaces_spec(es)[seen.len() as int] == ns);
                }
            }
        }
    }
}

/// Every object of a listing that is an entry is found, and nothing else is.
pub proof fn law_entries(objects: Seq<(Seq<char>, u64)>, e: EntryModel)
    ensures
        entries_of(objects).contains(e) <==> exists|i: int|
            0 <= i < objects.len() && parse_key_spec(
                (#[trigger] objects[i]).0,
                objects[i].1,
            ) == Some(e),
    decreases objects.len(),
{
    if objects.len() > 0 {
        let front = objects.drop_last();
        law_entries(front, e);
        let found = entries_of(objects);
        let before = entries_of(front);
        if found.contains(e) {
            if before.contains(e) {
                let i = choose|i: int|
                    0 <= i < front.len() && parse_key_spec((#[trigger] front[i]).0, front[i].1)
                        == Some(e);
                assert(objects[i] == front[i]);
            } else {
                let k = choose|k: int| 0 <= k < found.len() && found[k] == e;
                if k < before.len() {
                    assert(before[k] == e);
                }
                let n = objects.len() - 1;
                assert(objects[n] == objects.last());
            }
        }
        if exists|i: int|
            0 <= i < objects.len() && parse_key_spec((#[trigger] objects[i]).0, objects[i].1)
                == Some(e) {
            let i = choose|i: int|
                0 <= i < objects.len() && parse_key_spec((#[trigger] objects[i]).0, objects[i].1)
                    == Some(e);
            if i < front.len() {
                assert(front[i] == objects[i]);
                let k = choose|k: int| 0 <= k < before.len() && before[k] == e;
                assert(found[k] == e);
            } else {
                assert(objects[i] == objects.last());
                assert(found[found.len() - 1] == e);
            }
        }
    }
}

/// A listing is scanned object by object: each is an entry, or is reported,
/// or is left out, by its key alone.
pub proof fn law_scan(a: Seq<(Seq<char>, u64)>, b: Seq<(Seq<char>, u64)>, o: (Seq<char>, u64))
    ensures
        entries_of(a + b) == entries_of(a) + entries_of(b),
        others_of(a + b) == others_of(a) + others_of(b),
        entries_of(seq![o]) == (match parse_key_spec(o.0, o.1) {
            Some(e) => seq![e],
            None => Seq::<EntryModel>::empty(),
        }),
        others_of(seq![o]) == (if parse_key_spec(o.0, o.1) is None && other_dir_spec(
            o.0,
        ) is Some {
            seq![other_dir_spec(o.0)->0]
        } else {
            Seq::<Seq<char>>::empty()
        }),
    decreases b.len(),
{
    let none = Seq::<(Seq<char>, u64)>::empty();
    assert(seq![o].drop_last() =~= none);
    assert(entries_of(none) =~= Seq::<EntryModel>::empty());
    assert(others_of(none) =~= Seq::<Seq<char>>::empty());
    assert(entries_of(seq![o]) =~= (match parse_key_spec(o.0, o.1) {
        Some(e) => seq![e],
        None => Seq::<EntryModel>::empty(),
    }));
    assert(others_of(seq![o]) =~= (if parse_key_spec(o.0, o.1) is None && other_dir_spec(
        o.0,
    ) is Some {
        seq![other_dir_spec(o.0)->0]
    } else {
        Seq::<Seq<char>>::empty()
    }));
    if b.len() > 0 {
        law_scan(a, b.drop_last(), o);
        assert((a + b).drop_last() =~= a + b.drop_last());
        assert((a + b).last() == b.last());
        assert(entries_of(a + b) =~= entries_of(a) + entries_of(b));
        assert(others_of(a + b) =~= others_of(a) + others_of(b));
    } else {
        assert(a + b =~= a);
        assert(entries_of(a + b) =~= entries_of(a) + entries_of(b));
        assert(others_of(a + b) =~= others_of(a) + others_of(b));
    }
}

/// How many of the texts are this one.
pub open spec fn occurrences(s: Seq<Seq<char>>, x: Seq<char>) -> nat {
    s.filter(|d: Seq<char>| d == x).len()
}

/// The report on other directories names each of them once, in the order of
/// their names, with the number of objects in it.
pub proof fn law_others_line(others: Seq<Seq<char>>) -> (dirs: Seq<Seq<char>>)
    ensures
        forall|i: int, j: int|
            0 <= i < j < dirs.len() ==> text_lt(#[trigger] dirs[i], #[trigger] dirs[j]),
        forall|d: Seq<char>| #[trigger] dirs.contains(d) <==> others.contains(d),
        others_line_spec(others) == "ignoring unrelated NGX feature dirs: "@ + join_spec(
            Seq::new(
                dirs.len(),
                |i: int|
                    dirs[i] + " ("@ + decimal(occurrences(others, dirs[i])) + ")"@,
            ),
            ", "@,
        ),
{
    let lt = by_text();
    let dirs = arrange(others, lt);
    lemma_by_text_strict();
    lemma_arrange_ordered(others, lt);
    assert forall|i: int, j: int| 0 <= i < j < dirs.len() implies text_lt(
        #[trigger] dirs[i],
        #[trigger] dirs[j],
    ) by {
        assert(lt(dirs[i], dirs[j]));
    }
    assert forall|d: Seq<char>| #[trigger] dirs.contains(d) <==> others.contains(d) by {
        lemma_arrange_contains(others, lt, d);
    }
    let notes = dirs.map_values(|d: Seq<char>| dir_note(others, d));
    let written = Seq::new(
        dirs.len(),
        |i: int|
            dirs[i] + " ("@ + decimal(occurrences(others, dirs[i])) + ")"@,
    );
    assert forall|i: int| 0 <= i < dirs.len() implies notes[i] == written[i] by {
        lemma_times(others, dirs[i]);
    }
    assert(notes =~= written);
    dirs
}

/// How often a text occurs is how many of the texts it is.
proof fn lemma_times(s: Seq<Seq<char>>, x: Seq<char>)
    ensures
        times(s, x) == occurrences(s, x),
    decreases s.len(),
{
    reveal(Seq::filter);
    if s.len() > 0 {
        lemma_times(s.drop_last(), x);
    }
}

/// The namespaces come in the order in which they first occur: those of the
/// first entries come first, and one entry more adds its namespace at the end
/// if that is new, and nothing else.
pub proof fn law_namespaces_in_order(es: Seq<EntryModel>, e: EntryModel)
    ensures
        (exists|i: int| 0 <= i < es.len() && (#[trigger] es[i]).ns == e.ns) ==> namespaces_spec(
            es.push(e),
        ) == namespaces_spec(es),
        (forall|i: int| 0 <= i < es.len() ==> (#[trigger] es[i]).ns != e.ns) ==> namespaces_spec(
            es.push(e),
        ) == namespaces_spec(es).push(e.ns),
        namespaces_spec(Seq::<EntryModel>::empty()).len() == 0,
{
    assert(es.push(e).drop_last() =~= es);
    law_namespaces(es);
    assert(namespaces_spec(es).contains(e.ns) <==> exists|i: int|
        0 <= i < es.len() && (#[trigger] es[i]).ns == e.ns);
}

} // verus!
