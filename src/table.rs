//! The server's persistent note table, and reconciliation of a batch against it.
use vstd::prelude::*;
use crate::note::{Note, NoteView, Operation, notes_view};

verus! {

/// A stored row: a note without its pending operation and its client-only tags.
pub struct Row {
    pub id: i64,
    pub created: i64,
    pub changed: i64,
    pub title: String,
    pub content: String,
}

pub struct RowView {
    pub id: int,
    pub created: int,
    pub changed: int,
    pub title: Seq<char>,
    pub content: Seq<char>,
}

impl View for Row {
    type V = RowView;

    open spec fn view(&self) -> RowView {
        RowView {
            id: self.id as int,
            created: self.created as int,
            changed: self.changed as int,
            title: self.title@,
            content: self.content@,
        }
    }
}

pub open spec fn rows_view(v: Seq<Row>) -> Seq<RowView> {
    v.map_values(|r: Row| r@)
}

/// The value of a table: its rows, most recently changed first, and the
/// identifier that the next insert receives.
pub struct TableView {
    pub rows: Seq<RowView>,
    pub next_id: int,
}

/// Rows ordered by `changed`, descending.
pub open spec fn sorted_desc(rows: Seq<RowView>) -> bool {
    forall|i: int, j: int| 0 <= i < j < rows.len() ==> rows[i].changed >= rows[j].changed
}

/// No identifier occurs twice.
pub open spec fn ids_distinct(rows: Seq<RowView>) -> bool {
    forall|i: int, j: int| 0 <= i < j < rows.len() ==> rows[i].id != rows[j].id
}

/// Every identifier was handed out before `next_id`.
pub open spec fn ids_below(rows: Seq<RowView>, next_id: int) -> bool {
    forall|i: int| 0 <= i < rows.len() ==> 1 <= #[trigger] rows[i].id < next_id
}

pub open spec fn table_wf(t: TableView) -> bool {
    &&& 1 <= t.next_id <= i64::MAX
    &&& sorted_desc(t.rows)
    &&& ids_distinct(t.rows)
    &&& ids_below(t.rows, t.next_id)
}

/// `new` is `old` with `r` placed after every row changed no earlier than it
/// and before every row changed earlier.
pub open spec fn sorted_insert(old: Seq<RowView>, r: RowView, new: Seq<RowView>) -> bool {
    exists|p: int|
        0 <= p <= old.len() && new == #[trigger] old.insert(p, r) && (forall|k: int|
            0 <= k < p ==> old[k].changed >= r.changed) && (forall|k: int|
            p <= k < old.len() ==> old[k].changed < r.changed)
}

pub open spec fn has_id(rows: Seq<RowView>, id: int) -> bool {
    exists|i: int| 0 <= i < rows.len() && #[trigger] rows[i].id == id
}

/// What one storage command does to a table.
pub open spec fn command_step(t: TableView, c: CommandView, u: TableView) -> bool {
    match c {
        CommandView::Skip => u == t,
        CommandView::Insert { created, changed, title, content } => {
            &&& u.next_id == t.next_id + 1
            &&& sorted_insert(
                t.rows,
                RowView { id: t.next_id, created, changed, title, content },
                u.rows,
            )
        },
        CommandView::Update { id, changed, title, content } => {
            &&& u.next_id == t.next_id
            &&& if has_id(t.rows, id) {
                exists|i: int|
                    0 <= i < t.rows.len() && #[trigger] t.rows[i].id == id && sorted_insert(
                        t.rows.remove(i),
                        RowView { id, created: t.rows[i].created, changed, title, content },
                        u.rows,
                    )
            } else {
                u.rows == t.rows
            }
        },
        CommandView::Delete { id } => {
            &&& u.next_id == t.next_id
            &&& if has_id(t.rows, id) {
                exists|i: int|
                    0 <= i < t.rows.len() && #[trigger] t.rows[i].id == id && u.rows
                        == t.rows.remove(i)
            } else {
                u.rows == t.rows
            }
        },
    }
}

/// The storage command that a batch entry calls for.
pub open spec fn command_of(n: NoteView) -> CommandView {
    match n.operation {
        Operation::Create => CommandView::Insert {
            created: n.created,
            changed: n.changed,
            title: n.title,
            content: n.content,
        },
        Operation::Update => CommandView::Update {
            id: n.id,
            changed: n.changed,
            title: n.title,
            content: n.content,
        },
        Operation::Delete => CommandView::Delete { id: n.id },
        _ => CommandView::Skip,
    }
}

/// `states` lists the table before each entry of `b` and, last, after them all.
pub open spec fn batch_trace(b: Seq<NoteView>, states: Seq<TableView>) -> bool {
    &&& states.len() == b.len() + 1
    &&& forall|i: int|
        0 <= i < b.len() ==> command_step(#[trigger] states[i], command_of(b[i]), states[i + 1])
}

/// Applying the entries of a batch one after another, in order, takes `t` to `u`.
pub open spec fn batch_applies(t: TableView, b: Seq<NoteView>, u: TableView) -> bool {
    exists|states: Seq<TableView>|
        #[trigger] batch_trace(b, states) && states[0] == t && states.last() == u
}

proof fn lemma_trace_extend(b: Seq<NoteView>, i: int, states: Seq<TableView>, u: TableView)
    requires
        0 <= i < b.len(),
        batch_trace(b.take(i), states),
        command_step(states.last(), command_of(b[i]), u),
    ensures
        batch_trace(b.take(i + 1), states.push(u)),
        states.push(u)[0] == states[0],
        states.push(u).last() == u,
{
    let next = states.push(u);
    assert forall|k: int| 0 <= k < i + 1 implies command_step(
        #[trigger] next[k],
        command_of(b.take(i + 1)[k]),
        next[k + 1],
    ) by {
        if k < i {
            assert(next[k] == states[k]);
            assert(next[k + 1] == states[k + 1]);
            assert(b.take(i + 1)[k] == b.take(i)[k]);
        } else {
            assert(next[k] == states.last());
        }
    }
}

proof fn lemma_step_keeps_wf(m: TableView, c: CommandView, u: TableView)
    requires
        table_wf(m),
        command_step(m, c, u),
        u.next_id <= i64::MAX,
    ensures
        table_wf(u),
{
    match c {
        CommandView::Skip => {},
        CommandView::Insert { created, changed, title, content } => {
            let r = RowView { id: m.next_id, created, changed, title, content };
            lemma_insert_keeps_wf(m.rows, r, u.rows, m.next_id, u.next_id);
        },
        CommandView::Update { id, changed, title, content } => {
            if has_id(m.rows, id) {
                let i = choose|i: int|
                    0 <= i < m.rows.len() && #[trigger] m.rows[i].id == id && sorted_insert(
                        m.rows.remove(i),
                        RowView { id, created: m.rows[i].created, changed, title, content },
                        u.rows,
                    );
                lemma_remove_keeps_wf(m.rows, i, m.next_id);
                let r = RowView { id, created: m.rows[i].created, changed, title, content };
                lemma_insert_keeps_wf(m.rows.remove(i), r, u.rows, m.next_id, m.next_id);
            }
        },
        CommandView::Delete { id } => {
            if has_id(m.rows, id) {
                let i = choose|i: int|
                    0 <= i < m.rows.len() && #[trigger] m.rows[i].id == id && u.rows
                        == m.rows.remove(i);
                lemma_remove_keeps_wf(m.rows, i, m.next_id);
            }
        },
    }
}

/// Identifiers are handed out in increasing order along a batch.
pub proof fn lemma_trace_next_id_between(b: Seq<NoteView>, states: Seq<TableView>, a: int, c: int)
    requires
        batch_trace(b, states),
        0 <= a <= c < states.len(),
    ensures
        states[a].next_id <= states[c].next_id,
    decreases c - a,
{
    if a < c {
        lemma_trace_next_id_between(b, states, a + 1, c);
        assert(command_step(states[a], command_of(b[a]), states[a + 1]));
    }
}

/// Every table along the application of a batch is well formed.
pub proof fn lemma_trace_wf(b: Seq<NoteView>, states: Seq<TableView>, k: int)
    requires
        batch_trace(b, states),
        table_wf(states[0]),
        states.last().next_id <= i64::MAX,
        0 <= k < states.len(),
    ensures
        table_wf(states[k]),
    decreases k,
{
    if k > 0 {
        lemma_trace_wf(b, states, k - 1);
        lemma_trace_next_id_between(b, states, k, states.len() - 1);
        assert(command_step(states[k - 1], command_of(b[k - 1]), states[k]));
        lemma_step_keeps_wf(states[k - 1], command_of(b[k - 1]), states[k]);
    }
}

/// Whatever a batch holds, the table stays well formed after it: rows in
/// order of `changed`, descending, and identifiers positive and pairwise
/// distinct, so no two inserts ever receive the same identifier.
pub proof fn lemma_batch_keeps_ids_distinct(t: TableView, b: Seq<NoteView>, u: TableView)
    requires
        table_wf(t),
        batch_applies(t, b, u),
        u.next_id <= i64::MAX,
    ensures
        table_wf(u),
        ids_distinct(u.rows),
        forall|i: int| 0 <= i < u.rows.len() ==> #[trigger] u.rows[i].id >= 1,
{
    let states = choose|states: Seq<TableView>|
        #[trigger] batch_trace(b, states) && states[0] == t && states.last() == u;
    lemma_trace_wf(b, states, states.len() - 1);
}

/// A batch in which nothing is pending, such as one resent after it was
/// applied and answered, leaves the table as it was, and so the reply too.
pub proof fn lemma_settled_batch_changes_nothing(t: TableView, b: Seq<NoteView>, u: TableView)
    requires
        forall|i: int| 0 <= i < b.len() ==> #[trigger] b[i].operation == Operation::Synced,
        batch_applies(t, b, u),
    ensures
        u == t,
        snapshot_of(u) == snapshot_of(t),
{
    let states = choose|states: Seq<TableView>|
        #[trigger] batch_trace(b, states) && states[0] == t && states.last() == u;
    lemma_trace_constant(b, states, states.len() - 1);
}

proof fn lemma_trace_constant(b: Seq<NoteView>, states: Seq<TableView>, k: int)
    requires
        forall|i: int| 0 <= i < b.len() ==> #[trigger] b[i].operation == Operation::Synced,
        batch_trace(b, states),
        0 <= k < states.len(),
    ensures
        states[k] == states[0],
    decreases k,
{
    if k > 0 {
        lemma_trace_constant(b, states, k - 1);
        assert(command_step(states[k - 1], command_of(b[k - 1]), states[k]));
    }
}

/// How many entries of a batch ask for an insert.
pub open spec fn count_creates(b: Seq<NoteView>) -> int
    decreases b.len(),
{
    if b.len() == 0 {
        0
    } else {
        count_creates(b.drop_last()) + if b.last().operation == Operation::Create {
            1int
        } else {
            0int
        }
    }
}

proof fn lemma_count_creates_mono(b: Seq<NoteView>, i: int, j: int)
    requires
        0 <= i <= j <= b.len(),
    ensures
        count_creates(b.take(i)) <= count_creates(b.take(j)),
    decreases j - i,
{
    if i < j {
        lemma_count_creates_mono(b, i, j - 1);
        assert(b.take(j).drop_last() =~= b.take(j - 1));
    }
}

/// Where entry `i` is an insert, the whole batch holds more inserts than the
/// entries before it.
proof fn lemma_count_creates_bound(b: Seq<NoteView>, i: int)
    requires
        0 <= i < b.len(),
        b[i].operation == Operation::Create,
    ensures
        count_creates(b.take(i)) + 1 <= count_creates(b),
{
    assert(b.take(i + 1).drop_last() =~= b.take(i));
    lemma_count_creates_mono(b, i + 1, b.len() as int);
    assert(b.take(b.len() as int) =~= b);
}

/// The reply that a table gives: every row, in table order, as a reconciled note.
pub open spec fn snapshot_of(t: TableView) -> Seq<NoteView> {
    t.rows.map_values(
        |r: RowView|
            NoteView {
                operation: Operation::Synced,
                id: r.id,
                created: r.created,
                changed: r.changed,
                title: r.title,
                content: r.content,
                tags: seq![],
            },
    )
}

/// A command on the table, one per batch entry.
pub enum TableCommand {
    /// Nothing to store.
    Skip,
    /// Insert a row under a newly assigned identifier.
    Insert { created: i64, changed: i64, title: String, content: String },
    /// Overwrite `changed`, `title` and `content` of the row `id`, if there is one.
    Update { id: i64, changed: i64, title: String, content: String },
    /// Remove the row `id`, if there is one.
    Delete { id: i64 },
}

pub enum CommandView {
    Skip,
    Insert { created: int, changed: int, title: Seq<char>, content: Seq<char> },
    Update { id: int, changed: int, title: Seq<char>, content: Seq<char> },
    Delete { id: int },
}

impl View for TableCommand {
    type V = CommandView;

    open spec fn view(&self) -> CommandView {
        match self {
            TableCommand::Skip => CommandView::Skip,
            TableCommand::Insert { created, changed, title, content } => CommandView::Insert {
                created: *created as int,
                changed: *changed as int,
                title: title@,
                content: content@,
            },
            TableCommand::Update { id, changed, title, content } => CommandView::Update {
                id: *id as int,
                changed: *changed as int,
                title: title@,
                content: content@,
            },
            TableCommand::Delete { id } => CommandView::Delete { id: *id as int },
        }
    }
}

/// The storage command for one batch entry: entries already reconciled and
/// entries with an unrecognized tag are skipped.
pub fn command_for(n: &Note) -> (r: TableCommand)
    ensures
        r@ == command_of(n@),
{
    match n.operation {
        Operation::Create => TableCommand::Insert {
            created: n.created,
            changed: n.changed,
            title: n.title.clone(),
            content: n.content.clone(),
        },
        Operation::Update => TableCommand::Update {
            id: n.id,
            changed: n.changed,
            title: n.title.clone(),
            content: n.content.clone(),
        },
        Operation::Delete => TableCommand::Delete { id: n.id },
        _ => TableCommand::Skip,
    }
}

/// Why the table refused a command.
#[derive(PartialEq, Eq, Structural, Clone, Copy, Debug)]
pub enum TableError {
    /// Every identifier has been handed out; identifiers are never reused.
    IdsExhausted,
}

proof fn lemma_insert_keeps_wf(rows: Seq<RowView>, r: RowView, new: Seq<RowView>, n: int, n2: int)
    requires
        sorted_desc(rows),
        ids_distinct(rows),
        ids_below(rows, n),
        n <= n2,
        1 <= r.id < n2,
        forall|k: int| 0 <= k < rows.len() ==> rows[k].id != r.id,
        sorted_insert(rows, r, new),
    ensures
        sorted_desc(new),
        ids_distinct(new),
        ids_below(new, n2),
        new.len() == rows.len() + 1,
{
    let p = choose|p: int|
        0 <= p <= rows.len() && new == #[trigger] rows.insert(p, r) && (forall|k: int|
            0 <= k < p ==> rows[k].changed >= r.changed) && (forall|k: int|
            p <= k < rows.len() ==> rows[k].changed < r.changed);
    rows.insert_ensures(p, r);
    assert forall|i: int, j: int| 0 <= i < j < new.len() implies new[i].changed >= new[j].changed
        && new[i].id != new[j].id by {
        if j < p {
        } else if j == p {
        } else if i < p {
            assert(new[j] == rows[j - 1]);
        } else if i == p {
            assert(new[j] == rows[j - 1]);
        } else {
            assert(new[i] == rows[i - 1]);
            assert(new[j] == rows[j - 1]);
        }
    }
    assert forall|i: int| 0 <= i < new.len() implies 1 <= #[trigger] new[i].id < n2 by {
        if i > p {
            assert(new[i] == rows[i - 1]);
        }
    }
}

proof fn lemma_remove_keeps_wf(rows: Seq<RowView>, i: int, n: int)
    requires
        sorted_desc(rows),
        ids_distinct(rows),
        ids_below(rows, n),
        0 <= i < rows.len(),
    ensures
        sorted_desc(rows.remove(i)),
        ids_distinct(rows.remove(i)),
        ids_below(rows.remove(i), n),
        forall|k: int| 0 <= k < rows.remove(i).len() ==> rows.remove(i)[k].id != rows[i].id,
{
    let new = rows.remove(i);
    rows.remove_ensures(i);
    assert forall|a: int, b: int| 0 <= a < b < new.len() implies new[a].changed >= new[b].changed
        && new[a].id != new[b].id by {
        let a0 = if a < i { a } else { a + 1 };
        let b0 = if b < i { b } else { b + 1 };
        assert(new[a] == rows[a0]);
        assert(new[b] == rows[b0]);
    }
    assert forall|k: int| 0 <= k < new.len() implies 1 <= #[trigger] new[k].id < n && new[k].id
        != rows[i].id by {
        let k0 = if k < i { k } else { k + 1 };
        assert(new[k] == rows[k0]);
    }
}

/// The server's table of notes, keyed by identifiers it assigns itself, in
/// increasing order, never twice.
pub struct NoteTable {
    rows: Vec<Row>,
    next_id: i64,
}

impl View for NoteTable {
    type V = TableView;

    closed spec fn view(&self) -> TableView {
        TableView { rows: rows_view(self.rows@), next_id: self.next_id as int }
    }
}

impl NoteTable {
    pub open spec fn wf(&self) -> bool {
        table_wf(self@)
    }

    /// An empty table whose first identifier is 1.
    pub fn new() -> (t: NoteTable)
        ensures
            t.wf(),
            t@.rows.len() == 0,
            t@.next_id == 1,
    {
        let t = NoteTable { rows: Vec::new(), next_id: 1 };
        assert(t@.rows =~= Seq::<RowView>::empty());
        t
    }

    /// An empty table whose identifiers continue a sequence: the first one
    /// handed out is `next_id`.
    pub fn with_next_id(next_id: i64) -> (t: NoteTable)
        requires
            next_id >= 1,
        ensures
            t.wf(),
            t@.rows.len() == 0,
            t@.next_id == next_id,
    {
        let t = NoteTable { rows: Vec::new(), next_id };
        assert(t@.rows =~= Seq::<RowView>::empty());
        t
    }

    fn find(&self, id: i64) -> (r: Option<usize>)
        ensures
            match r {
                Some(i) => i < self@.rows.len() && self@.rows[i as int].id == id,
                None => !has_id(self@.rows, id as int),
            },
    {
        let mut i: usize = 0;
        while i < self.rows.len()
            invariant
                i <= self.rows@.len(),
                self@.rows.len() == self.rows@.len(),
                forall|k: int| 0 <= k < i ==> self@.rows[k].id != id,
            decreases self.rows.len() - i,
        {
            if self.rows[i].id == id {
                return Some(i);
            }
            i = i + 1;
        }
        None
    }

    /// Places a row among the others so that the order by `changed` stays descending.
    fn place(&mut self, row: Row)
        requires
            sorted_desc(old(self)@.rows),
        ensures
            final(self)@.next_id == old(self)@.next_id,
            sorted_insert(old(self)@.rows, row@, final(self)@.rows),
    {
        let ghost old_rows = self@.rows;
        let mut p: usize = 0;
        while p < self.rows.len() && self.rows[p].changed >= row.changed
            invariant
                p <= self.rows@.len(),
                self@.rows == old_rows,
                old_rows.len() == self.rows@.len(),
                forall|k: int| 0 <= k < p ==> old_rows[k].changed >= row@.changed,
            decreases self.rows.len() - p,
        {
            p = p + 1;
        }
        assert forall|k: int| p <= k < old_rows.len() implies old_rows[k].changed < row@.changed by {
            assert(old_rows[p as int].changed < row@.changed);
        }
        let ghost r = row@;
        self.rows.insert(p, row);
        assert(self@.rows =~= old_rows.insert(p as int, r));
    }

    /// Inserts a row under the next identifier and returns that identifier.
    pub fn insert(&mut self, created: i64, changed: i64, title: String, content: String) -> (r:
        Result<i64, TableError>)
        requires
            old(self).wf(),
        ensures
            final(self).wf(),
            old(self)@.next_id < i64::MAX ==> r == Ok::<i64, TableError>(
                old(self)@.next_id as i64,
            ) && command_step(
                old(self)@,
                CommandView::Insert { created: created as int, changed: changed as int, title: title@, content: content@ },
                final(self)@,
            ),
            old(self)@.next_id == i64::MAX ==> r == Err::<i64, TableError>(
                TableError::IdsExhausted,
            ) && final(self)@ == old(self)@,
    {
        if self.next_id == i64::MAX {
            return Err(TableError::IdsExhausted);
        }
        let id = self.next_id;
        let ghost old_view = self@;
        let row = Row { id, created, changed, title, content };
        self.place(row);
        self.next_id = id + 1;
        proof {
            let r = RowView { id: id as int, created: created as int, changed: changed as int, title: title@, content: content@ };
            lemma_insert_keeps_wf(old_view.rows, r, self@.rows, old_view.next_id, self@.next_id);
        }
        Ok(id)
    }

    /// Carries out one storage command.
    pub fn execute(&mut self, c: TableCommand) -> (r: Result<(), TableError>)
        requires
            old(self).wf(),
        ensures
            final(self).wf(),
            r is Ok ==> command_step(old(self)@, c@, final(self)@),
            r is Err <==> (c@ is Insert && old(self)@.next_id == i64::MAX),
            r is Err ==> final(self)@ == old(self)@,
    {
        match c {
            TableCommand::Skip => Ok(()),
            TableCommand::Insert { created, changed, title, content } => {
                match self.insert(created, changed, title, content) {
                    Ok(_) => Ok(()),
                    Err(e) => Err(e),
                }
            },
            TableCommand::Update { id, changed, title, content } => {
                self.update(id, changed, title, content);
                Ok(())
            },
            TableCommand::Delete { id } => {
                self.delete(id);
                Ok(())
            },
        }
    }

    /// Applies the entries of a batch one at a time, in order. Nothing is
    /// rolled back: where an insert finds the identifiers exhausted, the
    /// entries before it stay applied.
    pub fn apply_batch(&mut self, batch: &Vec<Note>) -> (r: Result<(), TableError>)
        requires
            old(self).wf(),
        ensures
            final(self).wf(),
            r is Ok ==> batch_applies(old(self)@, notes_view(batch@), final(self)@),
            r is Ok <==> old(self)@.next_id + count_creates(notes_view(batch@)) <= i64::MAX,
            r is Err ==> exists|k: int|
                0 <= k < batch@.len() && batch@[k].operation == Operation::Create
                    && final(self)@.next_id == i64::MAX && #[trigger] batch_applies(
                    old(self)@,
                    notes_view(batch@).take(k),
                    final(self)@,
                ),
    {
        let ghost t0 = self@;
        let ghost b = notes_view(batch@);
        let ghost mut states: Seq<TableView> = seq![t0];
        let mut i: usize = 0;
        assert(batch_trace(b.take(0), states));
        while i < batch.len()
            invariant
                self.wf(),
                i <= batch@.len(),
                b == notes_view(batch@),
                batch_trace(b.take(i as int), states),
                states[0] == t0,
                t0 == old(self)@,
                states.last() == self@,
                self@.next_id == t0.next_id + count_creates(b.take(i as int)),
            decreases batch.len() - i,
        {
            let c = command_for(&batch[i]);
            assert(b[i as int] == batch@[i as int]@);
            match self.execute(c) {
                Ok(()) => {},
                Err(e) => {
                    proof {
                        assert(b[i as int].operation == Operation::Create);
                        lemma_count_creates_bound(b, i as int);
                        assert(batch_applies(t0, b.take(i as int), self@));
                    }
                    return Err(e);
                },
            }
            proof {
                assert(b.take(i + 1).drop_last() =~= b.take(i as int));
                assert(b.take(i + 1).last() == b[i as int]);
                lemma_trace_extend(b, i as int, states, self@);
                states = states.push(self@);
            }
            i = i + 1;
        }
        assert(b.take(batch@.len() as int) =~= b);
        assert(batch_applies(t0, b, self@));
        Ok(())
    }

    /// Every row, most recently changed first, as reconciled notes.
    pub fn snapshot(&self) -> (r: Vec<Note>)
        ensures
            notes_view(r@) == snapshot_of(self@),
    {
        let mut r: Vec<Note> = Vec::new();
        let mut i: usize = 0;
        while i < self.rows.len()
            invariant
                i <= self.rows@.len(),
                r@.len() == i,
                forall|k: int| 0 <= k < i ==> #[trigger] r@[k]@ == snapshot_of(self@)[k],
            decreases self.rows.len() - i,
        {
            let row = &self.rows[i];
            let n = Note {
                operation: Operation::Synced,
                id: row.id,
                created: row.created,
                changed: row.changed,
                title: row.title.clone(),
                content: row.content.clone(),
                tags: Vec::new(),
            };
            assert(n.tags@.map_values(|s: String| s@) =~= Seq::<Seq<char>>::empty());
            r.push(n);
            i = i + 1;
        }
        assert(notes_view(r@) =~= snapshot_of(self@));
        r
    }

    /// Applies a batch and answers with the table as it then stands.
    pub fn reconcile(&mut self, batch: &Vec<Note>) -> (r: Result<Vec<Note>, TableError>)
        requires
            old(self).wf(),
        ensures
            final(self).wf(),
            r is Ok <==> old(self)@.next_id + count_creates(notes_view(batch@)) <= i64::MAX,
            match r {
                Ok(reply) => batch_applies(old(self)@, notes_view(batch@), final(self)@)
                    && notes_view(reply@) == snapshot_of(final(self)@),
                Err(_) => exists|k: int|
                    0 <= k < batch@.len() && batch@[k].operation == Operation::Create
                        && final(self)@.next_id == i64::MAX && #[trigger] batch_applies(
                        old(self)@,
                        notes_view(batch@).take(k),
                        final(self)@,
                    ),
            },
    {
        match self.apply_batch(batch) {
            Ok(()) => Ok(self.snapshot()),
            Err(e) => Err(e),
        }
    }

    /// Overwrites `changed`, `title` and `content` of the row `id`, keeping
    /// its creation time; tells whether there was such a row.
    pub fn update(&mut self, id: i64, changed: i64, title: String, content: String) -> (r: bool)
        requires
            old(self).wf(),
        ensures
            final(self).wf(),
            r == has_id(old(self)@.rows, id as int),
            command_step(
                old(self)@,
                CommandView::Update { id: id as int, changed: changed as int, title: title@, content: content@ },
                final(self)@,
            ),
    {
        match self.find(id) {
            None => false,
            Some(i) => {
                let ghost old_view = self@;
                let old_row = self.rows.remove(i);
                assert(self@.rows =~= old_view.rows.remove(i as int));
                proof {
                    lemma_remove_keeps_wf(old_view.rows, i as int, old_view.next_id);
                }
                let row = Row { id, created: old_row.created, changed, title, content };
                let ghost r = row@;
                let ghost mid = self@.rows;
                self.place(row);
                proof {
                    lemma_insert_keeps_wf(mid, r, self@.rows, old_view.next_id, old_view.next_id);
                }
                true
            },
        }
    }

    /// Removes the row `id`; tells whether there was such a row.
    pub fn delete(&mut self, id: i64) -> (r: bool)
        requires
            old(self).wf(),
        ensures
            final(self).wf(),
            r == has_id(old(self)@.rows, id as int),
            command_step(old(self)@, CommandView::Delete { id: id as int }, final(self)@),
    {
        match self.find(id) {
            None => false,
            Some(i) => {
                let ghost old_view = self@;
                self.rows.remove(i);
                assert(self@.rows =~= old_view.rows.remove(i as int));
                proof {
                    lemma_remove_keeps_wf(old_view.rows, i as int, old_view.next_id);
                }
                true
            },
        }
    }
}

} // verus!
