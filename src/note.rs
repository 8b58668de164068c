//! The note record and its pending-operation tag.
use vstd::prelude::*;

verus! {

/// The identifier of a note that the server has not yet assigned one.
pub const UNASSIGNED_ID: i64 = -1;

/// The action still to be applied to a note on the server.
#[derive(PartialEq, Eq, Structural, Clone, Copy, Debug)]
pub enum Operation {
    /// Already reconciled: nothing to do.
    Synced,
    Create,
    Update,
    Delete,
    /// A tag that is none of the above: skipped by the server.
    Unrecognized,
}

/// The wire tag of each operation.
pub open spec fn tag_of(op: Operation) -> Seq<char> {
    match op {
        Operation::Synced => seq![],
        Operation::Create => seq!['C', 'R', 'E', 'A', 'T', 'E'],
        Operation::Update => seq!['U', 'P', 'D', 'A', 'T', 'E'],
        Operation::Delete => seq!['D', 'E', 'L', 'E', 'T', 'E'],
        Operation::Unrecognized => seq!['?'],
    }
}

/// The operation that a wire tag names.
pub open spec fn operation_of(t: Seq<char>) -> Operation {
    if t == tag_of(Operation::Synced) {
        Operation::Synced
    } else if t == tag_of(Operation::Create) {
        Operation::Create
    } else if t == tag_of(Operation::Update) {
        Operation::Update
    } else if t == tag_of(Operation::Delete) {
        Operation::Delete
    } else {
        Operation::Unrecognized
    }
}

impl Operation {
    /// The tag under which this operation travels.
    pub fn tag(&self) -> (r: String)
        ensures
            r@ == tag_of(*self),
    {
        let s = match self {
            Operation::Synced => "",
            Operation::Create => "CREATE",
            Operation::Update => "UPDATE",
            Operation::Delete => "DELETE",
            Operation::Unrecognized => "?",
        };
        proof {
            reveal_strlit("");
            reveal_strlit("CREATE");
            reveal_strlit("UPDATE");
            reveal_strlit("DELETE");
            reveal_strlit("?");
        }
        let r = s.to_owned();
        assert(r@ =~= tag_of(*self));
        r
    }

    /// Reads a wire tag; any tag but the four known ones is `Unrecognized`.
    pub fn from_tag(tag: &str) -> (r: Operation)
        ensures
            r == operation_of(tag@),
    {
        let t = tag.to_owned();
        if t == Operation::Synced.tag() {
            Operation::Synced
        } else if t == Operation::Create.tag() {
            Operation::Create
        } else if t == Operation::Update.tag() {
            Operation::Update
        } else if t == Operation::Delete.tag() {
            Operation::Delete
        } else {
            Operation::Unrecognized
        }
    }
}

/// Reading back the tag of a known operation gives that operation.
pub proof fn lemma_tag_round_trip(op: Operation)
    requires
        op != Operation::Unrecognized,
    ensures
        operation_of(tag_of(op)) == op,
{
    assert(tag_of(Operation::Synced).len() == 0);
    assert(tag_of(Operation::Create).len() == 6);
    assert(tag_of(Operation::Update).len() == 6);
    assert(tag_of(Operation::Delete).len() == 6);
    assert(tag_of(Operation::Update)[0] != tag_of(Operation::Create)[0]);
    assert(tag_of(Operation::Update) != tag_of(Operation::Synced));
    assert(tag_of(Operation::Delete)[0] != tag_of(Operation::Create)[0]);
    assert(tag_of(Operation::Delete)[0] != tag_of(Operation::Update)[0]);
    assert(tag_of(Operation::Delete) != tag_of(Operation::Synced));
}

/// A note as the client holds it and as it travels in a batch.
pub struct Note {
    pub operation: Operation,
    pub id: i64,
    pub created: i64,
    pub changed: i64,
    pub title: String,
    pub content: String,
    /// Labels kept on the client only; the server never stores them.
    pub tags: Vec<String>,
}

/// The mathematical value of a note.
pub struct NoteView {
    pub operation: Operation,
    pub id: int,
    pub created: int,
    pub changed: int,
    pub title: Seq<char>,
    pub content: Seq<char>,
    pub tags: Seq<Seq<char>>,
}

pub open spec fn strings_view(v: Seq<String>) -> Seq<Seq<char>> {
    v.map_values(|s: String| s@)
}

impl View for Note {
    type V = NoteView;

    open spec fn view(&self) -> NoteView {
        NoteView {
            operation: self.operation,
            id: self.id as int,
            created: self.created as int,
            changed: self.changed as int,
            title: self.title@,
            content: self.content@,
            tags: strings_view(self.tags@),
        }
    }
}

/// The values of a sequence of notes.
pub open spec fn notes_view(v: Seq<Note>) -> Seq<NoteView> {
    v.map_values(|n: Note| n@)
}

/// Copies a list of strings.
pub fn copy_strings(v: &Vec<String>) -> (r: Vec<String>)
    ensures
        r@ == v@,
{
    let mut r: Vec<String> = Vec::new();
    let mut i: usize = 0;
    while i < v.len()
        invariant
            i <= v.len(),
            r@ == v@.take(i as int),
        decreases v.len() - i,
    {
        r.push(v[i].clone());
        i = i + 1;
        assert(r@ =~= v@.take(i as int));
    }
    assert(v@.take(v.len() as int) =~= v@);
    r
}

impl Note {
    /// A field-for-field copy.
    pub fn copy(&self) -> (r: Note)
        ensures
            r@ == self@,
            r.tags@ == self.tags@,
    {
        Note {
            operation: self.operation,
            id: self.id,
            created: self.created,
            changed: self.changed,
            title: self.title.clone(),
            content: self.content.clone(),
            tags: copy_strings(&self.tags),
        }
    }
}

/// Copies a list of notes field for field.
pub fn copy_notes(v: &Vec<Note>) -> (r: Vec<Note>)
    ensures
        notes_view(r@) == notes_view(v@),
        r@.len() == v@.len(),
{
    let mut r: Vec<Note> = Vec::new();
    let mut i: usize = 0;
    while i < v.len()
        invariant
            i <= v.len(),
            r@.len() == i,
            forall|k: int| 0 <= k < i ==> r@[k]@ == v@[k]@,
        decreases v.len() - i,
    {
        r.push(v[i].copy());
        i = i + 1;
    }
    assert(notes_view(r@) =~= notes_view(v@));
    r
}

} // verus!
