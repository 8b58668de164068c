//! The client's local note cache: pure state transitions that a user
//! interface invokes, and the wholesale replacement by a server reply.
use vstd::prelude::*;
use crate::note::{Note, NoteView, Operation, UNASSIGNED_ID, notes_view, strings_view};

verus! {

/// A reply note as the cache keeps it: the pending operation cleared.
pub open spec fn settled(n: NoteView) -> NoteView {
    NoteView { operation: Operation::Synced, ..n }
}

/// The cache after a reply: the reply, every pending operation cleared.
pub open spec fn replied(reply: Seq<NoteView>) -> Seq<NoteView> {
    reply.map_values(|n: NoteView| settled(n))
}

/// The note that `create` puts first.
pub open spec fn created_note(
    title: Seq<char>,
    content: Seq<char>,
    tags: Seq<Seq<char>>,
    now: int,
) -> NoteView {
    NoteView {
        operation: Operation::Create,
        id: UNASSIGNED_ID as int,
        created: now,
        changed: now,
        title,
        content,
        tags,
    }
}

/// A note after an edit that changed it: an unsynced note stays pending
/// creation, any other becomes pending update.
pub open spec fn edited_note(n: NoteView, title: Seq<char>, content: Seq<char>, now: int) -> NoteView {
    NoteView {
        operation: if n.operation == Operation::Create {
            Operation::Create
        } else {
            Operation::Update
        },
        changed: now,
        title,
        content,
        ..n
    }
}

/// The cache after the note at `index` is deleted.
pub open spec fn deleted(notes: Seq<NoteView>, index: int) -> Seq<NoteView> {
    if notes[index].id == UNASSIGNED_ID as int {
        notes.remove(index)
    } else {
        notes.update(index, NoteView { operation: Operation::Delete, ..notes[index] })
    }
}

/// The positions of the notes that are not pending deletion, in order.
pub open spec fn is_visible_list(notes: Seq<NoteView>, r: Seq<usize>) -> bool {
    &&& forall|a: int, b: int| 0 <= a < b < r.len() ==> r[a] < r[b]
    &&& forall|a: int|
        0 <= a < r.len() ==> #[trigger] r[a] < notes.len() && notes[r[a] as int].operation
            != Operation::Delete
    &&& forall|k: int|
        0 <= k < notes.len() && notes[k].operation != Operation::Delete ==> exists|a: int|
            0 <= a < r.len() && #[trigger] r[a] == k
}

/// The notes of one client, most recently created first.
pub struct NoteCache {
    notes: Vec<Note>,
}

impl View for NoteCache {
    type V = Seq<NoteView>;

    closed spec fn view(&self) -> Seq<NoteView> {
        notes_view(self.notes@)
    }
}

impl NoteCache {
    /// An empty cache.
    pub fn new() -> (r: NoteCache)
        ensures
            r@ == Seq::<NoteView>::empty(),
    {
        let r = NoteCache { notes: Vec::new() };
        assert(r@ =~= Seq::<NoteView>::empty());
        r
    }

    /// A cache holding the given notes, as restored from local storage.
    pub fn from_notes(notes: Vec<Note>) -> (r: NoteCache)
        ensures
            r@ == notes_view(notes@),
    {
        NoteCache { notes }
    }

    /// The notes, for persisting or sending.
    pub fn notes(&self) -> (r: &Vec<Note>)
        ensures
            notes_view(r@) == self@,
    {
        &self.notes
    }

    pub fn len(&self) -> (r: usize)
        ensures
            r == self@.len(),
    {
        self.notes.len()
    }

    /// Adds a note pending creation, without an identifier, in front.
    pub fn create(&mut self, title: String, content: String, tags: Vec<String>, now: i64)
        ensures
            final(self)@ == seq![created_note(title@, content@, strings_view(tags@), now as int)]
                + old(self)@,
    {
        let ghost n = created_note(title@, content@, strings_view(tags@), now as int);
        let note = Note {
            operation: Operation::Create,
            id: UNASSIGNED_ID,
            created: now,
            changed: now,
            title,
            content,
            tags,
        };
        let ghost before = self.notes@;
        self.notes.insert(0, note);
        assert(self@ =~= seq![n] + notes_view(before));
    }

    /// Replaces the title and content of the note at `index` where either
    /// differs, stamping it with `now`; tells whether anything changed.
    pub fn edit(&mut self, index: usize, title: String, content: String, now: i64) -> (r: bool)
        requires
            index < old(self)@.len(),
        ensures
            r == !(old(self)@[index as int].title == title@ && old(self)@[index as int].content
                == content@),
            r ==> final(self)@ == old(self)@.update(
                index as int,
                edited_note(old(self)@[index as int], title@, content@, now as int),
            ),
            !r ==> final(self)@ == old(self)@,
    {
        let ghost before = self.notes@;
        if self.notes[index].title == title && self.notes[index].content == content {
            return false;
        }
        let mut note = self.notes.remove(index);
        if note.operation != Operation::Create {
            note.operation = Operation::Update;
        }
        note.changed = now;
        note.title = title;
        note.content = content;
        self.notes.insert(index, note);
        assert(self@ =~= notes_view(before).update(
            index as int,
            edited_note(notes_view(before)[index as int], title@, content@, now as int),
        ));
        true
    }

    /// Deletes the note at `index`: one the server never saw goes at once;
    /// any other is marked for deletion and stays until a sync confirms it.
    /// Tells whether the server has to be told.
    pub fn delete(&mut self, index: usize) -> (r: bool)
        requires
            index < old(self)@.len(),
        ensures
            final(self)@ == deleted(old(self)@, index as int),
            r == (old(self)@[index as int].id != UNASSIGNED_ID as int),
    {
        let ghost before = self.notes@;
        if self.notes[index].id == UNASSIGNED_ID {
            self.notes.remove(index);
            assert(self@ =~= notes_view(before).remove(index as int));
            false
        } else {
            let mut note = self.notes.remove(index);
            note.operation = Operation::Delete;
            self.notes.insert(index, note);
            assert(self@ =~= deleted(notes_view(before), index as int));
            true
        }
    }

    /// The positions of the notes to show: all but those pending deletion.
    pub fn visible(&self) -> (r: Vec<usize>)
        ensures
            is_visible_list(self@, r@),
    {
        let mut r: Vec<usize> = Vec::new();
        let mut i: usize = 0;
        while i < self.notes.len()
            invariant
                i <= self.notes@.len(),
                self@.len() == self.notes@.len(),
                forall|a: int, b: int| 0 <= a < b < r@.len() ==> r@[a] < r@[b],
                forall|a: int|
                    0 <= a < r@.len() ==> #[trigger] r@[a] < i && self@[r@[a] as int].operation
                        != Operation::Delete,
                forall|k: int|
                    0 <= k < i && self@[k].operation != Operation::Delete ==> exists|a: int|
                        0 <= a < r@.len() && #[trigger] r@[a] == k,
            decreases self.notes.len() - i,
        {
            let ghost old_r = r@;
            if self.notes[i].operation != Operation::Delete {
                r.push(i);
                assert(r@[r@.len() - 1] == i);
            }
            assert forall|k: int|
                0 <= k < i + 1 && self@[k].operation != Operation::Delete implies exists|a: int|
                0 <= a < r@.len() && #[trigger] r@[a] == k by {
                if k < i {
                    let a = choose|a: int| 0 <= a < old_r.len() && #[trigger] old_r[a] == k;
                    assert(r@[a] == old_r[a]);
                } else {
                    assert(r@[r@.len() - 1] == i);
                }
            }
            i = i + 1;
        }
        r
    }

    /// Replaces every note by the server's reply, clearing pending operations.
    pub fn apply_reply(&mut self, reply: Vec<Note>)
        ensures
            final(self)@ == replied(notes_view(reply@)),
    {
        let ghost orig = reply@;
        let mut reply = reply;
        let mut i: usize = 0;
        while i < reply.len()
            invariant
                i <= reply@.len(),
                reply@.len() == orig.len(),
                forall|k: int| 0 <= k < i ==> #[trigger] reply@[k]@ == settled(orig[k]@),
                forall|k: int| i <= k < reply@.len() ==> #[trigger] reply@[k]@ == orig[k]@,
            decreases reply.len() - i,
        {
            let ghost prev = reply@;
            let mut n = reply.remove(i);
            n.operation = Operation::Synced;
            let ghost m = n;
            reply.insert(i, n);
            assert(reply@ =~= prev.update(i as int, m));
            assert(prev[i as int]@ == orig[i as int]@);
            assert(m@ == settled(orig[i as int]@));
            i = i + 1;
        }
        assert(notes_view(reply@) =~= replied(notes_view(orig)));
        self.notes = reply;
    }
}

} // verus!
