//! Laws of a whole sync cycle: the client sends its cache as a batch, the
//! server applies it and answers with its snapshot, and the client takes the
//! answer as its cache.
use vstd::prelude::*;
use crate::cache::replied;
use crate::note::{NoteView, Operation, UNASSIGNED_ID};
use crate::table::{
    CommandView, RowView, TableView, batch_applies, batch_trace, command_of, command_step, has_id,
    lemma_batch_keeps_ids_distinct, snapshot_of, sorted_insert, table_wf, lemma_trace_wf,
    lemma_trace_next_id_between,
};

verus! {

/// After a successful cycle, whatever the batch held, every note in the
/// cache has an identifier that the server assigned and no pending operation.
pub proof fn lemma_sync_cycle_settles(t: TableView, batch: Seq<NoteView>, u: TableView)
    requires
        table_wf(t),
        batch_applies(t, batch, u),
        u.next_id <= i64::MAX,
    ensures
        forall|i: int|
            0 <= i < replied(snapshot_of(u)).len() ==> (#[trigger] replied(snapshot_of(u))[i]).id
                != UNASSIGNED_ID as int && replied(snapshot_of(u))[i].id >= 1
                && replied(snapshot_of(u))[i].operation == Operation::Synced,
{
    lemma_batch_keeps_ids_distinct(t, batch, u);
    assert forall|i: int| 0 <= i < replied(snapshot_of(u)).len() implies (#[trigger] replied(
        snapshot_of(u),
    )[i]).id >= 1 by {
        assert(snapshot_of(u)[i].id == u.rows[i].id);
    }
}

proof fn lemma_insert_keeps_absent(rows: Seq<RowView>, r: RowView, new: Seq<RowView>, x: int)
    requires
        !has_id(rows, x),
        r.id != x,
        sorted_insert(rows, r, new),
    ensures
        !has_id(new, x),
{
    let p = choose|p: int|
        0 <= p <= rows.len() && new == #[trigger] rows.insert(p, r) && (forall|k: int|
            0 <= k < p ==> rows[k].changed >= r.changed) && (forall|k: int|
            p <= k < rows.len() ==> rows[k].changed < r.changed);
    rows.insert_ensures(p, r);
    assert forall|i: int| 0 <= i < new.len() implies #[trigger] new[i].id != x by {
        if i > p {
            assert(new[i] == rows[i - 1]);
        }
    }
}

proof fn lemma_remove_keeps_absent(rows: Seq<RowView>, i: int, x: int)
    requires
        !has_id(rows, x),
        0 <= i < rows.len(),
    ensures
        !has_id(rows.remove(i), x),
{
    rows.remove_ensures(i);
    assert forall|k: int| 0 <= k < rows.remove(i).len() implies #[trigger] rows.remove(i)[k].id
        != x by {
        if k >= i {
            assert(rows.remove(i)[k] == rows[k + 1]);
        }
    }
}

/// A step in which no row takes the identifier `x` leaves `x` absent.
proof fn lemma_step_keeps_absent(m: TableView, c: CommandView, u: TableView, x: int)
    requires
        command_step(m, c, u),
        !has_id(m.rows, x),
        x < m.next_id,
    ensures
        !has_id(u.rows, x),
{
    match c {
        CommandView::Skip => {},
        CommandView::Insert { created, changed, title, content } => {
            let r = RowView { id: m.next_id, created, changed, title, content };
            lemma_insert_keeps_absent(m.rows, r, u.rows, x);
        },
        CommandView::Update { id, changed, title, content } => {
            if has_id(m.rows, id) {
                let i = choose|i: int|
                    0 <= i < m.rows.len() && #[trigger] m.rows[i].id == id && sorted_insert(
                        m.rows.remove(i),
                        RowView { id, created: m.rows[i].created, changed, title, content },
                        u.rows,
                    );
                lemma_remove_keeps_absent(m.rows, i, x);
                let r = RowView { id, created: m.rows[i].created, changed, title, content };
                lemma_insert_keeps_absent(m.rows.remove(i), r, u.rows, x);
            }
        },
        CommandView::Delete { id } => {
            if has_id(m.rows, id) {
                let i = choose|i: int|
                    0 <= i < m.rows.len() && #[trigger] m.rows[i].id == id && u.rows
                        == m.rows.remove(i);
                lemma_remove_keeps_absent(m.rows, i, x);
            }
        },
    }
}

proof fn lemma_trace_absent_after(
    t: TableView,
    b: Seq<NoteView>,
    states: Seq<TableView>,
    k: int,
    j: int,
)
    requires
        table_wf(t),
        batch_trace(b, states),
        states[0] == t,
        states.last().next_id <= i64::MAX,
        0 <= k < b.len(),
        b[k].operation == Operation::Delete,
        b[k].id < t.next_id,
        k < j < states.len(),
    ensures
        !has_id(states[j].rows, b[k].id),
    decreases j,
{
    let x = b[k].id;
    lemma_trace_next_id_between(b, states, 0, j - 1);
    assert(command_step(states[j - 1], command_of(b[j - 1]), states[j]));
    if j == k + 1 {
        lemma_trace_wf(b, states, k);
        let m = states[k];
        if has_id(m.rows, x) {
            let i = choose|i: int|
                0 <= i < m.rows.len() && #[trigger] m.rows[i].id == x && states[j].rows
                    == m.rows.remove(i);
            m.rows.remove_ensures(i);
            assert forall|a: int| 0 <= a < states[j].rows.len() implies #[trigger] states[j].rows[a].id
                != x by {
                let a0 = if a < i { a } else { a + 1 };
                assert(states[j].rows[a] == m.rows[a0]);
                assert(a0 != i);
            }
        }
    } else {
        lemma_trace_absent_after(t, b, states, k, j - 1);
        lemma_step_keeps_absent(states[j - 1], command_of(b[j - 1]), states[j], x);
    }
}

/// A note pending deletion, once its batch has been applied, is absent from
/// the reply, whatever entries follow it in the batch.
pub proof fn lemma_confirmed_delete_absent(
    t: TableView,
    batch: Seq<NoteView>,
    u: TableView,
    k: int,
)
    requires
        table_wf(t),
        batch_applies(t, batch, u),
        u.next_id <= i64::MAX,
        0 <= k < batch.len(),
        batch[k].operation == Operation::Delete,
        batch[k].id != UNASSIGNED_ID as int,
        batch[k].id < t.next_id,
    ensures
        forall|i: int|
            0 <= i < replied(snapshot_of(u)).len() ==> (#[trigger] replied(snapshot_of(u))[i]).id
                != batch[k].id,
{
    let states = choose|states: Seq<TableView>|
        #[trigger] batch_trace(batch, states) && states[0] == t && states.last() == u;
    lemma_trace_absent_after(t, batch, states, k, states.len() - 1);
    assert forall|i: int| 0 <= i < replied(snapshot_of(u)).len() implies (#[trigger] replied(
        snapshot_of(u),
    )[i]).id != batch[k].id by {
        assert(snapshot_of(u)[i].id == u.rows[i].id);
    }
}

} // verus!
