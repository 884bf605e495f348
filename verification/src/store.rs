//! What the insert statement asks of the store.
//!
//! A table holds at most one row under each primary key. The insert
//! statement writes a row unless a row with its key is there: the first
//! write wins. The store itself is not part of this library; this is the
//! rule it is asked to follow, and what follows from the rule. `K` stands
//! for a primary key as the store compares it, `R` for a row.
use crate::record::{parse_line, ParseError};
use vstd::prelude::*;

verus! {

/// The table after one insert of `row` under `key`.
pub open spec fn written<K, R>(table: Map<K, R>, key: K, row: R) -> Map<K, R> {
    if table.dom().contains(key) {
        table
    } else {
        table.insert(key, row)
    }
}

/// The table after the inserts `writes`, made from first to last.
pub open spec fn written_all<K, R>(table: Map<K, R>, writes: Seq<(K, R)>) -> Map<K, R>
    decreases writes.len(),
{
    if writes.len() == 0 {
        table
    } else {
        written(written_all(table, writes.drop_last()), writes.last().0, writes.last().1)
    }
}

/// Writes under one key bring the same row, unless the table holds the
/// key already and so takes none of them.
pub open spec fn rows_agree<K, R>(table: Map<K, R>, writes: Seq<(K, R)>) -> bool {
    forall|i: int, j: int|
        0 <= i < writes.len() && 0 <= j < writes.len() && writes[i].0 == writes[j].0
            && !table.dom().contains(writes[i].0) ==> writes[i].1 == writes[j].1
}

/// After an insert the key has a row, and a second insert under the same
/// key changes nothing, whatever row it brings: the row of the first stays.
pub proof fn lemma_second_write_changes_nothing<K, R>(table: Map<K, R>, key: K, row: R, again: R)
    ensures
        written(table, key, row).dom().contains(key),
        written(written(table, key, row), key, again) == written(table, key, row),
        !table.dom().contains(key) ==> written(written(table, key, row), key, again)[key] == row,
{
}

/// Making the same inserts a second time changes nothing: the table is as
/// it was after the first time.
pub proof fn lemma_same_writes_twice<K, R>(table: Map<K, R>, writes: Seq<(K, R)>)
    ensures
        written_all(written_all(table, writes), writes) == written_all(table, writes),
{
    lemma_written_all_keeps(written_all(table, writes), writes, table, writes);
}

/// Inserts under keys that the table holds already change nothing.
proof fn lemma_written_all_keeps<K, R>(
    table: Map<K, R>,
    writes: Seq<(K, R)>,
    base: Map<K, R>,
    earlier: Seq<(K, R)>,
)
    requires
        table == written_all(base, earlier),
        forall|i: int| 0 <= i < writes.len() ==> earlier.contains(#[trigger] writes[i]),
    ensures
        written_all(table, writes) == table,
    decreases writes.len(),
{
    if writes.len() > 0 {
        lemma_written_all_keeps(table, writes.drop_last(), base, earlier);
        let last = writes.last();
        assert(earlier.contains(writes[writes.len() - 1]));
        let i = choose|i: int| 0 <= i < earlier.len() && earlier[i] == last;
        lemma_written_all_holds(base, earlier, i);
    }
}

/// After the inserts, each of their keys has a row.
proof fn lemma_written_all_holds<K, R>(table: Map<K, R>, writes: Seq<(K, R)>, i: int)
    requires
        0 <= i < writes.len(),
    ensures
        written_all(table, writes).dom().contains(writes[i].0),
    decreases writes.len(),
{
    if i < writes.len() - 1 {
        lemma_written_all_holds(table, writes.drop_last(), i);
    }
}

/// What the table holds after inserts whose rows agree: the rows it held,
/// and the row of each insert whose key it did not hold.
proof fn lemma_written_all_contents<K, R>(table: Map<K, R>, writes: Seq<(K, R)>)
    requires
        rows_agree(table, writes),
    ensures
        forall|k: K| #[trigger]
            written_all(table, writes).dom().contains(k) <==> (table.dom().contains(k)
                || exists|i: int| 0 <= i < writes.len() && #[trigger] writes[i].0 == k),
        forall|k: K| #[trigger]
            table.dom().contains(k) ==> written_all(table, writes)[k] == table[k],
        forall|i: int|
            0 <= i < writes.len() && !table.dom().contains(#[trigger] writes[i].0)
                ==> written_all(table, writes)[writes[i].0] == writes[i].1,
    decreases writes.len(),
{
    if writes.len() > 0 {
        let before = writes.drop_last();
        let n = writes.len() - 1;
        assert(rows_agree(table, before)) by {
            assert forall|i: int, j: int|
                0 <= i < before.len() && 0 <= j < before.len() && before[i].0 == before[j].0
                    && !table.dom().contains(before[i].0) implies before[i].1 == before[j].1 by {
                assert(writes[i].0 == writes[j].0);
            }
        }
        lemma_written_all_contents(table, before);
        let mid = written_all(table, before);
        let end = written_all(table, writes);
        assert forall|k: K| #[trigger]
            end.dom().contains(k) <==> (table.dom().contains(k) || exists|i: int|
                0 <= i < writes.len() && #[trigger] writes[i].0 == k) by {
            if end.dom().contains(k) && !table.dom().contains(k) {
                if mid.dom().contains(k) {
                    let i = choose|i: int| 0 <= i < before.len() && #[trigger] before[i].0 == k;
                    assert(writes[i].0 == k);
                } else {
                    assert(writes[n].0 == k);
                }
            }
            if exists|i: int| 0 <= i < writes.len() && #[trigger] writes[i].0 == k {
                let i = choose|i: int| 0 <= i < writes.len() && #[trigger] writes[i].0 == k;
                if i < n {
                    assert(before[i].0 == k);
                }
            }
        }
        assert forall|i: int|
            0 <= i < writes.len() && !table.dom().contains(
                #[trigger] writes[i].0,
            ) implies end[writes[i].0] == writes[i].1 by {
            let k = writes[i].0;
            if mid.dom().contains(k) {
                let j = choose|j: int| 0 <= j < before.len() && #[trigger] before[j].0 == k;
                assert(writes[j].0 == writes[i].0);
                assert(mid[before[j].0] == before[j].1);
                if writes[n].0 != k {
                    assert(end[k] == mid[k]);
                }
            } else {
                if i < n {
                    assert(before[i].0 == k);
                }
            }
        }
    }
}

/// The order of the inserts does not matter: two lists of the same inserts
/// leave the same table. Left out are lists that bring two different rows
/// under one key that the table does not hold, where the first one wins.
pub proof fn lemma_order_of_writes<K, R>(table: Map<K, R>, first: Seq<(K, R)>, second: Seq<(K, R)>)
    requires
        rows_agree(table, first),
        forall|w: (K, R)| first.contains(w) <==> second.contains(w),
    ensures
        written_all(table, first) == written_all(table, second),
{
    assert(rows_agree(table, second)) by {
        assert forall|i: int, j: int|
            0 <= i < second.len() && 0 <= j < second.len() && second[i].0 == second[j].0
                && !table.dom().contains(second[i].0) implies second[i].1 == second[j].1 by {
            assert(second.contains(second[i]));
            assert(second.contains(second[j]));
            assert(first.contains(second[i]));
            assert(first.contains(second[j]));
            let a = choose|a: int| 0 <= a < first.len() && first[a] == second[i];
            let b = choose|b: int| 0 <= b < first.len() && first[b] == second[j];
            assert(first[a].0 == first[b].0);
        }
    }
    let a = written_all(table, first);
    let b = written_all(table, second);
    lemma_written_all_contents(table, first);
    lemma_written_all_contents(table, second);
    assert forall|k: K| a.dom().contains(k) <==> b.dom().contains(k) by {
        if a.dom().contains(k) && !table.dom().contains(k) {
            let i = choose|i: int| 0 <= i < first.len() && #[trigger] first[i].0 == k;
            assert(first.contains(first[i]));
            assert(second.contains(first[i]));
            let j = choose|j: int| 0 <= j < second.len() && second[j] == first[i];
            assert(second[j].0 == k);
        }
        if b.dom().contains(k) && !table.dom().contains(k) {
            let i = choose|i: int| 0 <= i < second.len() && #[trigger] second[i].0 == k;
            assert(second.contains(second[i]));
            assert(first.contains(second[i]));
            let j = choose|j: int| 0 <= j < first.len() && first[j] == second[i];
            assert(first[j].0 == k);
        }
    }
    assert forall|k: K| a.dom().contains(k) implies a[k] == b[k] by {
        if !table.dom().contains(k) {
            let i = choose|i: int| 0 <= i < first.len() && #[trigger] first[i].0 == k;
            assert(first.contains(first[i]));
            assert(second.contains(first[i]));
            let j = choose|j: int| 0 <= j < second.len() && second[j] == first[i];
            assert(second[j].0 == k);
            assert(a[first[i].0] == first[i].1);
            assert(b[second[j].0] == second[j].1);
        }
    }
    assert(a =~= b);
}

/// The inserts that an ingest of `lines` asks for, in order: one for each
/// line that is a record, with the line's values as the row. `key` is how
/// the store reads a primary key from the values.
pub open spec fn writes_of<K>(lines: Seq<Seq<char>>, key: spec_fn(Seq<Seq<char>>) -> K) -> Seq<
    (K, Seq<Seq<char>>),
>
    decreases lines.len(),
{
    if lines.len() == 0 {
        Seq::empty()
    } else {
        let before = writes_of(lines.drop_last(), key);
        match parse_line(lines.last()) {
            Ok(values) => before.push((key(values), values)),
            Err(_) => before,
        }
    }
}

/// The table after an ingest of `lines`.
pub open spec fn table_after<K>(
    table: Map<K, Seq<Seq<char>>>,
    lines: Seq<Seq<char>>,
    key: spec_fn(Seq<Seq<char>>) -> K,
) -> Map<K, Seq<Seq<char>>> {
    written_all(table, writes_of(lines, key))
}

/// Ingesting a line twice leaves the table as ingesting it once: the
/// second write finds the key taken and does nothing.
pub proof fn lemma_same_line_twice<K>(
    table: Map<K, Seq<Seq<char>>>,
    line: Seq<char>,
    key: spec_fn(Seq<Seq<char>>) -> K,
)
    ensures
        table_after(table, seq![line, line], key) == table_after(table, seq![line], key),
        table_after(table_after(table, seq![line], key), seq![line], key) == table_after(
            table,
            seq![line],
            key,
        ),
{
    let once = seq![line];
    let twice = seq![line, line];
    assert(twice.drop_last() =~= once);
    assert(once.drop_last() =~= Seq::<Seq<char>>::empty());
    assert(writes_of(once.drop_last(), key) =~= Seq::empty());
    let w = writes_of(once, key);
    lemma_same_writes_twice(table, w);
    match parse_line(line) {
        Ok(values) => {
            let row = (key(values), values);
            assert(w =~= seq![row]);
            assert(writes_of(twice, key) =~= seq![row, row]);
            assert(seq![row, row].drop_last() =~= seq![row]);
            assert(seq![row].drop_last() =~= Seq::<(K, Seq<Seq<char>>)>::empty());
            lemma_second_write_changes_nothing(table, row.0, row.1, row.1);
        },
        Err(_) => {
            assert(writes_of(twice, key) =~= Seq::empty());
        },
    }
}

/// A line that is no record leaves no trace in the table: with the line or
/// without it, an ingest asks for the same inserts and leaves the same
/// table.
pub proof fn lemma_malformed_line_leaves_table<K>(
    table: Map<K, Seq<Seq<char>>>,
    lines: Seq<Seq<char>>,
    j: int,
    key: spec_fn(Seq<Seq<char>>) -> K,
)
    requires
        0 <= j < lines.len(),
        parse_line(lines[j]) is Err,
    ensures
        writes_of(lines.remove(j), key) == writes_of(lines, key),
        table_after(table, lines.remove(j), key) == table_after(table, lines, key),
    decreases lines.len(),
{
    if j == lines.len() - 1 {
        assert(lines.remove(j) =~= lines.drop_last());
    } else {
        let shorter = lines.remove(j);
        assert(shorter.drop_last() =~= lines.drop_last().remove(j));
        assert(shorter.last() == lines.last());
        lemma_malformed_line_leaves_table(table, lines.drop_last(), j, key);
    }
}

/// Whether `w` is the insert that the line `line` asks for.
pub open spec fn is_write_of<K>(
    w: (K, Seq<Seq<char>>),
    line: Seq<char>,
    key: spec_fn(Seq<Seq<char>>) -> K,
) -> bool {
    parse_line(line) == Ok::<Seq<Seq<char>>, ParseError>(w.1) && w.0 == key(w.1)
}

proof fn lemma_writes_of_contents<K>(lines: Seq<Seq<char>>, key: spec_fn(Seq<Seq<char>>) -> K)
    ensures
        forall|w: (K, Seq<Seq<char>>)| #[trigger]
            writes_of(lines, key).contains(w) <==> exists|i: int|
                0 <= i < lines.len() && is_write_of(w, #[trigger] lines[i], key),
    decreases lines.len(),
{
    if lines.len() > 0 {
        let before = lines.drop_last();
        let n = lines.len() - 1;
        lemma_writes_of_contents(before, key);
        let wb = writes_of(before, key);
        let wl = writes_of(lines, key);
        assert forall|w: (K, Seq<Seq<char>>)| #[trigger]
            wl.contains(w) <==> exists|i: int|
                0 <= i < lines.len() && is_write_of(w, #[trigger] lines[i], key) by {
            if wl.contains(w) {
                let p = choose|p: int| 0 <= p < wl.len() && wl[p] == w;
                if p < wb.len() {
                    assert(wb[p] == w);
                    assert(wb.contains(w));
                    let i = choose|i: int|
                        0 <= i < before.len() && is_write_of(w, #[trigger] before[i], key);
                    assert(is_write_of(w, lines[i], key));
                } else {
                    assert(is_write_of(w, lines[n], key));
                }
            }
            if exists|i: int| 0 <= i < lines.len() && is_write_of(w, #[trigger] lines[i], key) {
                let i = choose|i: int|
                    0 <= i < lines.len() && is_write_of(w, #[trigger] lines[i], key);
                if i < n {
                    assert(is_write_of(w, before[i], key));
                    assert(wb.contains(w));
                    let p = choose|p: int| 0 <= p < wb.len() && wb[p] == w;
                    assert(wl[p] == w);
                } else {
                    assert(wl[wl.len() - 1] == w);
                }
            }
        }
    } else {
        assert(writes_of(lines, key).len() == 0);
    }
}

/// The order of the lines does not matter: two texts of the same lines
/// leave the same table. Left out are texts that bring two different rows
/// under one key that the table does not hold, where the first one wins.
pub proof fn lemma_order_of_lines<K>(
    table: Map<K, Seq<Seq<char>>>,
    first: Seq<Seq<char>>,
    second: Seq<Seq<char>>,
    key: spec_fn(Seq<Seq<char>>) -> K,
)
    requires
        forall|line: Seq<char>| first.contains(line) <==> second.contains(line),
        rows_agree(table, writes_of(first, key)),
    ensures
        table_after(table, first, key) == table_after(table, second, key),
{
    let wf = writes_of(first, key);
    let ws = writes_of(second, key);
    lemma_writes_of_contents(first, key);
    lemma_writes_of_contents(second, key);
    assert forall|w: (K, Seq<Seq<char>>)| wf.contains(w) <==> ws.contains(w) by {
        if wf.contains(w) {
            let i = choose|i: int| 0 <= i < first.len() && is_write_of(w, #[trigger] first[i], key);
            assert(first.contains(first[i]));
            assert(second.contains(first[i]));
            let j = choose|j: int| 0 <= j < second.len() && second[j] == first[i];
            assert(is_write_of(w, second[j], key));
        }
        if ws.contains(w) {
            let i = choose|i: int|
                0 <= i < second.len() && is_write_of(w, #[trigger] second[i], key);
            assert(second.contains(second[i]));
            assert(first.contains(second[i]));
            let j = choose|j: int| 0 <= j < first.len() && first[j] == second[i];
            assert(is_write_of(w, first[j], key));
        }
    }
    lemma_order_of_writes(table, wf, ws);
}

} // verus!
