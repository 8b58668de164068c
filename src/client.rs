//! The client: what each user action or sync outcome does to its state, and
//! when a batch is to be sent.
use vstd::prelude::*;
use crate::cache::{NoteCache, created_note, deleted, edited_note, replied};
use crate::note::{Note, NoteView, UNASSIGNED_ID, notes_view, strings_view};

verus! {

/// The pieces of `s` between commas, in order; a string without commas is
/// one piece, and the empty string is one empty piece.
pub open spec fn split_commas(s: Seq<char>) -> Seq<Seq<char>>
    decreases s.len(),
{
    if s.len() == 0 {
        seq![seq![]]
    } else {
        let pre = split_commas(s.drop_last());
        if s.last() == ',' {
            pre.push(seq![])
        } else {
            pre.update(pre.len() - 1, pre.last().push(s.last()))
        }
    }
}

proof fn lemma_split_commas_nonempty(s: Seq<char>)
    ensures
        split_commas(s).len() >= 1,
    decreases s.len(),
{
    if s.len() > 0 {
        lemma_split_commas_nonempty(s.drop_last());
    }
}

/// Splits a comma-separated list of labels.
pub fn split_tags(s: &str) -> (r: Vec<String>)
    ensures
        strings_view(r@) == split_commas(s@),
{
    let n = s.unicode_len();
    let mut pieces: Vec<String> = Vec::new();
    let mut start: usize = 0;
    let mut i: usize = 0;
    assert(s@.take(0) =~= Seq::<char>::empty());
    assert(strings_view(pieces@).push(s@.subrange(0, 0)) =~= split_commas(s@.take(0)));
    while i < n
        invariant
            start <= i <= n,
            n == s@.len(),
            strings_view(pieces@).push(s@.subrange(start as int, i as int)) == split_commas(
                s@.take(i as int),
            ),
        decreases n - i,
    {
        let c = s.get_char(i);
        let ghost pre = split_commas(s@.take(i as int));
        proof {
            lemma_split_commas_nonempty(s@.take(i as int));
            assert(s@.take(i + 1).drop_last() =~= s@.take(i as int));
            assert(s@.take(i + 1).last() == c);
        }
        if c == ',' {
            let ghost old_pieces = pieces@;
            let piece = s.substring_char(start, i).to_owned();
            assert(piece@ == s@.subrange(start as int, i as int));
            pieces.push(piece);
            assert(strings_view(pieces@) =~= strings_view(old_pieces).push(
                s@.subrange(start as int, i as int),
            ));
            start = i + 1;
            assert(s@.subrange(start as int, (i + 1) as int) =~= Seq::<char>::empty());
            assert(strings_view(pieces@).push(s@.subrange(start as int, (i + 1) as int))
                =~= pre.push(seq![]));
        } else {
            assert(s@.subrange(start as int, (i + 1) as int) =~= s@.subrange(
                start as int,
                i as int,
            ).push(c));
            assert(strings_view(pieces@).push(s@.subrange(start as int, (i + 1) as int))
                =~= pre.update(pre.len() - 1, pre.last().push(c)));
        }
        i = i + 1;
    }
    let last = s.substring_char(start, n).to_owned();
    pieces.push(last);
    assert(s@.take(n as int) =~= s@);
    assert(strings_view(pieces@) =~= split_commas(s@));
    pieces
}

/// What the client's user interface, or a finished sync, tells the client.
pub enum Msg {
    /// The server answered a sync with this snapshot.
    SyncComplete(Vec<Note>),
    /// A sync failed in transport, or the answer could not be read.
    SyncFailed,
    NewContent(String),
    NewTitle(String),
    NewTags(String),
    EditContent(String),
    EditTitle(String),
    /// Store the drafted note.
    Submit,
    Delete(usize),
    /// Start, or stop, editing the note at an index.
    Edit(usize),
    /// Store the edited title and content into the note at an index.
    Save(usize),
}

/// The value of the client's state.
pub struct StateView {
    pub notes: Seq<NoteView>,
    pub new_title: Seq<char>,
    pub new_content: Seq<char>,
    pub new_tags: Seq<char>,
    pub edit_title: Seq<char>,
    pub edit_content: Seq<char>,
    pub is_edited: Option<usize>,
    pub message: Seq<char>,
    pub syncing: bool,
}

/// The status shown after a failed sync.
pub open spec fn sync_failed_message() -> Seq<char> {
    "Sync failed"@
}

/// The client: its note cache, the drafts of its input fields, the note
/// being edited, a status line, and whether a sync is in flight.
pub struct State {
    cache: NoteCache,
    new_title: String,
    new_content: String,
    new_tags: String,
    edit_title: String,
    edit_content: String,
    is_edited: Option<usize>,
    message: String,
    syncing: bool,
}

impl View for State {
    type V = StateView;

    closed spec fn view(&self) -> StateView {
        StateView {
            notes: self.cache@,
            new_title: self.new_title@,
            new_content: self.new_content@,
            new_tags: self.new_tags@,
            edit_title: self.edit_title@,
            edit_content: self.edit_content@,
            is_edited: self.is_edited,
            message: self.message@,
            syncing: self.syncing,
        }
    }
}

/// The messages that name a note by its index, and that index.
pub open spec fn msg_index(msg: &Msg) -> Option<usize> {
    match msg {
        Msg::Delete(i) => Some(*i),
        Msg::Edit(i) => Some(*i),
        Msg::Save(i) => Some(*i),
        _ => None,
    }
}

/// A message that names a note names one of the cache.
pub open spec fn index_in_range(msg: &Msg, len: nat) -> bool {
    match msg_index(msg) {
        Some(i) => i < len,
        None => true,
    }
}

/// Whether a sync was asked for (`wanted`), which one starts: only where
/// none is in flight.
pub open spec fn sync_started(s: StateView, wanted: bool, started: bool, t: StateView) -> bool {
    &&& started == (wanted && !s.syncing)
    &&& t.syncing == (s.syncing || wanted)
}

impl State {
    /// A client whose cache holds the notes restored from local storage.
    pub fn new(notes: Vec<Note>) -> (r: State)
        ensures
            r@.notes == notes_view(notes@),
            r@.new_title.len() == 0,
            r@.new_content.len() == 0,
            r@.new_tags.len() == 0,
            r@.edit_title.len() == 0,
            r@.edit_content.len() == 0,
            r@.is_edited is None,
            r@.message.len() == 0,
            !r@.syncing,
    {
        State {
            cache: NoteCache::from_notes(notes),
            new_title: String::new(),
            new_content: String::new(),
            new_tags: String::new(),
            edit_title: String::new(),
            edit_content: String::new(),
            is_edited: None,
            message: String::new(),
            syncing: false,
        }
    }

    /// The cache, for persisting it or sending it as a batch.
    pub fn notes(&self) -> (r: &Vec<Note>)
        ensures
            notes_view(r@) == self@.notes,
    {
        self.cache.notes()
    }

    /// The positions of the notes to show.
    pub fn visible(&self) -> (r: Vec<usize>)
        ensures
            crate::cache::is_visible_list(self@.notes, r@),
    {
        self.cache.visible()
    }

    pub fn message(&self) -> (r: &String)
        ensures
            r@ == self@.message,
    {
        &self.message
    }

    pub fn is_edited(&self) -> (r: Option<usize>)
        ensures
            r == self@.is_edited,
    {
        self.is_edited
    }

    pub fn is_syncing(&self) -> (r: bool)
        ensures
            r == self@.syncing,
    {
        self.syncing
    }

    /// Starts a sync unless one is in flight; tells whether it started.
    pub fn begin_sync(&mut self) -> (r: bool)
        ensures
            final(self)@ == (StateView { syncing: true, ..old(self)@ }),
            r == !old(self)@.syncing,
    {
        let r = !self.syncing;
        self.syncing = true;
        r
    }

    /// Adds the drafted note in front of the cache, pending creation, and
    /// clears the drafted title and content.
    pub fn post_note_locally(&mut self, now: i64)
        ensures
            final(self)@ == (StateView {
                notes: seq![
                    created_note(
                        old(self)@.new_title,
                        old(self)@.new_content,
                        split_commas(old(self)@.new_tags),
                        now as int,
                    ),
                ] + old(self)@.notes,
                new_title: Seq::<char>::empty(),
                new_content: Seq::<char>::empty(),
                ..old(self)@
            }),
    {
        let title = self.new_title.clone();
        let content = self.new_content.clone();
        self.new_title = String::new();
        self.new_content = String::new();
        let tags = split_tags(self.new_tags.as_str());
        self.cache.create(title, content, tags, now);
    }

    /// Applies one message at time `now` and tells whether a batch is to be
    /// sent now. A change that the server must learn of asks for a sync; it
    /// starts only where none is in flight.
    pub fn update(&mut self, msg: Msg, now: i64) -> (r: bool)
        requires
            index_in_range(&msg, old(self)@.notes.len()),
        ensures
            ({
                let s = old(self)@;
                let t = final(self)@;
                match msg {
                    Msg::SyncComplete(reply) => !r && t == StateView {
                        notes: replied(notes_view(reply@)),
                        syncing: false,
                        ..s
                    },
                    Msg::SyncFailed => !r && t == StateView {
                        message: sync_failed_message(),
                        syncing: false,
                        ..s
                    },
                    Msg::NewTitle(v) => !r && t == StateView { new_title: v@, ..s },
                    Msg::NewContent(v) => !r && t == StateView { new_content: v@, ..s },
                    Msg::NewTags(v) => !r && t == StateView { new_tags: v@, ..s },
                    Msg::EditTitle(v) => !r && t == StateView { edit_title: v@, ..s },
                    Msg::EditContent(v) => !r && t == StateView { edit_content: v@, ..s },
                    Msg::Submit => if s.new_title.len() == 0 && s.new_content.len() == 0 {
                        !r && t == s
                    } else {
                        sync_started(s, true, r, t) && t == StateView {
                            notes: seq![
                                created_note(
                                    s.new_title,
                                    s.new_content,
                                    split_commas(s.new_tags),
                                    now as int,
                                ),
                            ] + s.notes,
                            new_title: Seq::<char>::empty(),
                            new_content: Seq::<char>::empty(),
                            syncing: t.syncing,
                            ..s
                        }
                    },
                    Msg::Delete(i) => {
                        let wanted = s.notes[i as int].id != UNASSIGNED_ID as int;
                        sync_started(s, wanted, r, t) && t == StateView {
                            notes: deleted(s.notes, i as int),
                            is_edited: if s.is_edited == Some(i) {
                                None
                            } else {
                                s.is_edited
                            },
                            syncing: t.syncing,
                            ..s
                        }
                    },
                    Msg::Edit(i) => !r && t == (if s.is_edited is None {
                        StateView {
                            is_edited: Some(i),
                            edit_title: s.notes[i as int].title,
                            edit_content: s.notes[i as int].content,
                            ..s
                        }
                    } else {
                        StateView { is_edited: None, ..s }
                    }),
                    Msg::Save(i) => {
                        let n = s.notes[i as int];
                        let wanted = !(n.title == s.edit_title && n.content == s.edit_content);
                        sync_started(s, wanted, r, t) && t == StateView {
                            notes: if wanted {
                                s.notes.update(
                                    i as int,
                                    edited_note(n, s.edit_title, s.edit_content, now as int),
                                )
                            } else {
                                s.notes
                            },
                            is_edited: None,
                            syncing: t.syncing,
                            ..s
                        }
                    },
                }
            }),
    {
        match msg {
            Msg::SyncComplete(reply) => {
                self.cache.apply_reply(reply);
                self.syncing = false;
                false
            },
            Msg::SyncFailed => {
                self.message = "Sync failed".to_owned();
                self.syncing = false;
                false
            },
            Msg::NewTitle(v) => {
                self.new_title = v;
                false
            },
            Msg::NewContent(v) => {
                self.new_content = v;
                false
            },
            Msg::NewTags(v) => {
                self.new_tags = v;
                false
            },
            Msg::EditTitle(v) => {
                self.edit_title = v;
                false
            },
            Msg::EditContent(v) => {
                self.edit_content = v;
                false
            },
            Msg::Submit => {
                if self.new_title.as_str().unicode_len() == 0 && self.new_content.as_str().unicode_len() == 0 {
                    false
                } else {
                    self.post_note_locally(now);
                    self.begin_sync()
                }
            },
            Msg::Delete(i) => {
                if self.is_edited == Some(i) {
                    self.is_edited = None;
                }
                if self.cache.delete(i) {
                    self.begin_sync()
                } else {
                    false
                }
            },
            Msg::Edit(i) => {
                if self.is_edited.is_none() {
                    self.is_edited = Some(i);
                    self.edit_title = self.cache.notes()[i].title.clone();
                    self.edit_content = self.cache.notes()[i].content.clone();
                } else {
                    self.is_edited = None;
                }
                false
            },
            Msg::Save(i) => {
                let title = self.edit_title.clone();
                let content = self.edit_content.clone();
                let changed = self.cache.edit(i, title, content, now);
                self.is_edited = None;
                if changed {
                    self.begin_sync()
                } else {
                    false
                }
            },
        }
    }
}

} // verus!
