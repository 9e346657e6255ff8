//! A session of the picker, from reading the history to leaving the screen.

use vstd::prelude::*;

use crate::directory::{
    history_in, last_stored_is_read_first, lists, pruned, written, Directory,
};
use crate::history::{entries_of, file_bytes, Entry};
use crate::order::not_after;
use crate::picker::{nothing_yet, Choice, Chosen, Listing, Picker, NOTICE_SECS};

verus! {

/// What the session is in the middle of.
pub enum Phase {
    /// Reading the history.
    Reading,
    /// Telling that there is none.
    Telling,
    /// Opening the screen.
    Opening,
    /// Showing the list, until a key comes.
    Choosing,
    /// Having the selections own the text that was taken.
    Owning,
    /// Leaving the paste flag.
    Flagging,
    /// Removing an entry's file.
    Removing,
    /// Closing the screen; the history is then read again, or the session ends.
    Closing { again: bool },
    Ended,
}

/// What the session is told.
pub enum Event {
    /// The history, newest first.
    History { list: Vec<Entry> },
    /// A key, if one could be had.
    Key { key: Option<String> },
    /// What was asked for is done.
    Done,
}

/// What the session asks for.
pub enum Step {
    /// Read the history.
    Read,
    /// Tell a line, and let it stay for some seconds.
    Tell { line: String, secs: u64 },
    /// Open the screen.
    Open,
    /// Show the list, and read a key.
    Show,
    /// Have both selections own a text.
    Own { text: String },
    /// Leave the paste flag.
    Flag,
    /// Remove an entry's file.
    Remove { name: Vec<u8> },
    /// Close the screen.
    Close,
    /// End.
    End,
}

/// What is asked for, by characters and bytes.
pub enum Asked {
    Read,
    Tell { line: Seq<char>, secs: u64 },
    Open,
    Show,
    Own { text: Seq<char> },
    Flag,
    Remove { name: Seq<u8> },
    Close,
    End,
}

/// A session: the picker, once there is a history, and the phase.
pub struct Session {
    pub picker: Option<Picker>,
    pub phase: Phase,
}

/// The same, by what the entries hold.
pub struct Course {
    pub listing: Option<Listing>,
    pub phase: Phase,
}

impl View for Session {
    type V = Course;

    open spec fn view(&self) -> Course {
        Course {
            listing: match self.picker {
                Some(p) => Some(p@),
                None => None,
            },
            phase: self.phase,
        }
    }
}

impl View for Step {
    type V = Asked;

    open spec fn view(&self) -> Asked {
        match *self {
            Step::Read => Asked::Read,
            Step::Tell { line, secs } => Asked::Tell { line: line@, secs },
            Step::Open => Asked::Open,
            Step::Show => Asked::Show,
            Step::Own { text } => Asked::Own { text: text@ },
            Step::Flag => Asked::Flag,
            Step::Remove { name } => Asked::Remove { name: name@ },
            Step::Close => Asked::Close,
            Step::End => Asked::End,
        }
    }
}

pub open spec fn key_of(key: Option<String>) -> Option<Seq<char>> {
    match key {
        Some(k) => Some(k@),
        None => None,
    }
}

impl Course {
    /// Where the list is on the screen or about to be, an entry is selected.
    pub open spec fn wf(self) -> bool {
        (self.phase is Opening || self.phase is Choosing) ==> self.listing is Some
            && self.listing->0.wf()
    }

    /// The event that can come in each phase.
    pub open spec fn accepts(self, ev: Event) -> bool {
        match self.phase {
            Phase::Reading => ev is History,
            Phase::Choosing => ev is Key,
            Phase::Ended => false,
            _ => ev is Done,
        }
    }

    pub open spec fn going(self, phase: Phase, asked: Asked) -> (Course, Asked) {
        (Course { listing: self.listing, phase }, asked)
    }

    /// What an event leads to.
    pub open spec fn after(self, ev: Event) -> (Course, Asked) {
        match (self.phase, ev) {
            (Phase::Reading, Event::History { list }) => if list@.len() == 0 {
                (
                    Course { listing: None, phase: Phase::Telling },
                    Asked::Tell {
                        line: "yank: no history yet (is `yank --watch` running?)"@,
                        secs: NOTICE_SECS,
                    },
                )
            } else {
                (
                    Course {
                        listing: Some(Listing { list: entries_of(list@), sel: 0 }),
                        phase: Phase::Opening,
                    },
                    Asked::Open,
                )
            },
            (Phase::Opening, Event::Done) => self.going(Phase::Choosing, Asked::Show),
            (Phase::Choosing, Event::Key { key }) => {
                let (listing, chosen) = self.listing->0.pressed(key_of(key));
                let moved = Course { listing: Some(listing), phase: self.phase };
                match chosen {
                    Chosen::Show => moved.going(Phase::Choosing, Asked::Show),
                    Chosen::Quit => moved.going(Phase::Closing { again: false }, Asked::Close),
                    Chosen::Take { text } => moved.going(Phase::Owning, Asked::Own { text }),
                    Chosen::Delete { name } => moved.going(
                        Phase::Removing,
                        Asked::Remove { name },
                    ),
                }
            },
            (Phase::Owning, Event::Done) => self.going(Phase::Flagging, Asked::Flag),
            (Phase::Flagging, Event::Done) => self.going(
                Phase::Closing { again: false },
                Asked::Close,
            ),
            (Phase::Removing, Event::Done) => self.going(
                Phase::Closing { again: true },
                Asked::Close,
            ),
            (Phase::Closing { again }, Event::Done) => if again {
                self.going(Phase::Reading, Asked::Read)
            } else {
                self.going(Phase::Ended, Asked::End)
            },
            _ => self.going(Phase::Ended, Asked::End),
        }
    }
}

impl Session {
    /// The start, and what it asks for.
    pub fn start() -> (r: (Session, Step))
        ensures
            r.0@.wf(),
            r.0@ == (Course { listing: None, phase: Phase::Reading }),
            r.1@ == Asked::Read,
    {
        (Session { picker: None, phase: Phase::Reading }, Step::Read)
    }

    /// Whether an event can come now.
    pub fn accepts(&self, ev: &Event) -> (r: bool)
        ensures
            r == self@.accepts(*ev),
    {
        match (&self.phase, ev) {
            (Phase::Reading, Event::History { .. }) => true,
            (Phase::Reading, _) => false,
            (Phase::Choosing, Event::Key { .. }) => true,
            (Phase::Choosing, _) => false,
            (Phase::Ended, _) => false,
            (_, Event::Done) => true,
            _ => false,
        }
    }

    /// Takes an event, and says what is to be done next.
    pub fn step(&mut self, ev: Event) -> (step: Step)
        requires
            old(self)@.wf(),
            old(self)@.accepts(ev),
        ensures
            final(self)@.wf(),
            (final(self)@, step@) == old(self)@.after(ev),
    {
        match ev {
            Event::History { list } => {
                self.picker = Picker::open(list);
                if self.picker.is_none() {
                    self.phase = Phase::Telling;
                    Step::Tell { line: nothing_yet(), secs: NOTICE_SECS }
                } else {
                    self.phase = Phase::Opening;
                    Step::Open
                }
            },
            Event::Key { key } => self.press(key),
            Event::Done => self.done(),
        }
    }

    fn press(&mut self, key: Option<String>) -> (step: Step)
        requires
            old(self)@.wf(),
            old(self).phase is Choosing,
        ensures
            final(self)@.wf(),
            (final(self)@, step@) == old(self)@.after(Event::Key { key }),
    {
        let mut held: Option<Picker> = None;
        std::mem::swap(&mut held, &mut self.picker);
        let mut picker: Picker = match held {
            Some(p) => p,
            None => return Step::End,
        };
        let choice: Choice = match &key {
            Some(k) => picker.press(Some(k.as_str())),
            None => picker.press(None),
        };
        self.picker = Some(picker);
        match choice {
            Choice::Show => Step::Show,
            Choice::Quit => {
                self.phase = Phase::Closing { again: false };
                Step::Close
            },
            Choice::Take { text } => {
                self.phase = Phase::Owning;
                Step::Own { text }
            },
            Choice::Delete { name } => {
                self.phase = Phase::Removing;
                Step::Remove { name }
            },
        }
    }

    fn done(&mut self) -> (step: Step)
        requires
            old(self)@.wf(),
            old(self)@.accepts(Event::Done),
        ensures
            final(self)@.wf(),
            (final(self)@, step@) == old(self)@.after(Event::Done),
    {
        let (phase, step): (Phase, Step) = match &self.phase {
            Phase::Opening => (Phase::Choosing, Step::Show),
            Phase::Owning => (Phase::Flagging, Step::Flag),
            Phase::Flagging => (Phase::Closing { again: false }, Step::Close),
            Phase::Removing => (Phase::Closing { again: true }, Step::Close),
            Phase::Closing { again } => if *again {
                (Phase::Reading, Step::Read)
            } else {
                (Phase::Ended, Step::End)
            },
            _ => (Phase::Ended, Step::End),
        };
        self.phase = phase;
        step
    }
}

/// Where a session stands after some events.
pub open spec fn standing(evs: Seq<Event>) -> Course
    decreases evs.len(),
{
    if evs.len() == 0 {
        Course { listing: None, phase: Phase::Reading }
    } else {
        standing(evs.drop_last()).after(evs.last()).0
    }
}

/// What is asked for upon the event at position `i`.
pub open spec fn asked_at(evs: Seq<Event>, i: int) -> Asked {
    standing(evs.take(i)).after(evs[i]).1
}

/// Every event is one that can come.
pub open spec fn can_happen(evs: Seq<Event>) -> bool {
    forall|i: int| 0 <= i < evs.len() ==> standing(#[trigger] evs.take(i)).accepts(evs[i])
}

/// The event is the key Enter.
pub open spec fn is_enter(ev: Event) -> bool {
    ev matches Event::Key { key } && key_of(key) == Some("ENTER"@)
}

proof fn lemma_standing(evs: Seq<Event>, i: int)
    requires
        0 <= i < evs.len(),
    ensures
        standing(evs.take(i + 1)) == standing(evs.take(i)).after(evs[i]).0,
{
    assert(evs.take(i + 1).drop_last() =~= evs.take(i));
}

proof fn lemma_first_state(evs: Seq<Event>)
    ensures
        standing(evs.take(0)) == (Course { listing: None, phase: Phase::Reading }),
{
    assert(evs.take(0) =~= Seq::<Event>::empty());
}

proof fn lemma_prefix_can_happen(evs: Seq<Event>, i: int)
    requires
        can_happen(evs),
        0 <= i <= evs.len(),
    ensures
        can_happen(evs.take(i)),
{
    let front = evs.take(i);
    assert forall|k: int| 0 <= k < front.len() implies standing(#[trigger] front.take(k)).accepts(
        front[k],
    ) by {
        assert(front.take(k) =~= evs.take(k));
    }
}

/// Every state of a session is well-formed.
pub proof fn every_state_is_wf(evs: Seq<Event>)
    requires
        can_happen(evs),
    ensures
        standing(evs).wf(),
    decreases evs.len(),
{
    if evs.len() > 0 {
        let z = evs.len() - 1;
        assert(evs.take(z) =~= evs.drop_last());
        lemma_prefix_can_happen(evs, z);
        every_state_is_wf(evs.take(z));
        assert(standing(evs.take(z)).accepts(evs[z]));
    }
}

/// Whether the screen is open after some events: the last of its openings and
/// closings that was asked for is an opening.
pub open spec fn screen_is_open(evs: Seq<Event>) -> bool
    decreases evs.len(),
{
    if evs.len() == 0 {
        false
    } else {
        match standing(evs.drop_last()).after(evs.last()).1 {
            Asked::Open => true,
            Asked::Close => false,
            _ => screen_is_open(evs.drop_last()),
        }
    }
}

proof fn lemma_phases_with_the_screen_open(evs: Seq<Event>)
    requires
        can_happen(evs),
    ensures
        screen_is_open(evs) == match standing(evs).phase {
            Phase::Opening | Phase::Choosing | Phase::Owning | Phase::Flagging | Phase::Removing =>
                true,
            _ => false,
        },
    decreases evs.len(),
{
    if evs.len() > 0 {
        let z = evs.len() - 1;
        assert(evs.take(z) =~= evs.drop_last());
        lemma_prefix_can_happen(evs, z);
        lemma_phases_with_the_screen_open(evs.take(z));
        assert(standing(evs.take(z)).accepts(evs[z]));
    }
}

/// The screen is opened and closed in turn: it is opened only while it is
/// closed, and closed only while it is open. The list is shown, and an entry
/// taken or removed, only on an open screen; the history is read, a line told
/// and the session ended only without one.
pub proof fn the_screen_is_opened_and_closed_in_turn(evs: Seq<Event>, i: int)
    requires
        can_happen(evs),
        0 <= i < evs.len(),
    ensures
        match asked_at(evs, i) {
            Asked::Open | Asked::Read | Asked::Tell { .. } | Asked::End => !screen_is_open(
                evs.take(i),
            ),
            _ => screen_is_open(evs.take(i)),
        },
{
    lemma_prefix_can_happen(evs, i);
    lemma_phases_with_the_screen_open(evs.take(i));
    assert(standing(evs.take(i)).accepts(evs[i]));
}

proof fn lemma_enter_is_its_own_key()
    ensures
        "ENTER"@ != "q"@,
        "ENTER"@ != "Q"@,
        "ENTER"@ != "ESC"@,
        "ENTER"@ != "UP"@,
        "ENTER"@ != "k"@,
        "ENTER"@ != "DOWN"@,
        "ENTER"@ != "j"@,
        "ENTER"@ != "d"@,
{
    reveal_strlit("ENTER");
    reveal_strlit("q");
    reveal_strlit("Q");
    reveal_strlit("ESC");
    reveal_strlit("UP");
    reveal_strlit("k");
    reveal_strlit("DOWN");
    reveal_strlit("j");
    reveal_strlit("d");
    assert("ENTER"@.len() == 5 && "DOWN"@.len() == 4 && "ESC"@.len() == 3 && "UP"@.len() == 2);
    assert("q"@.len() == 1 && "Q"@.len() == 1 && "k"@.len() == 1 && "j"@.len() == 1 && "d"@.len()
        == 1);
}

/// The paste flag says that Enter was pressed: it is left only once the
/// selections own the text of the entry that was selected when it was.
pub proof fn the_flag_means_enter(evs: Seq<Event>, i: int)
    requires
        can_happen(evs),
        0 <= i < evs.len(),
        asked_at(evs, i) is Flag,
    ensures
        i > 0,
        is_enter(evs[i - 1]),
        standing(evs.take(i - 1)).listing is Some,
        ({
            let l = standing(evs.take(i - 1)).listing->0;
            l.wf() && asked_at(evs, i - 1) == (Asked::Own { text: l.list[l.sel as int].1 })
        }),
{
    let s = standing(evs.take(i));
    assert(s.accepts(evs[i]));
    lemma_first_state(evs);
    lemma_standing(evs, i - 1);
    let t = standing(evs.take(i - 1));
    assert(t.accepts(evs[i - 1]));
    lemma_prefix_can_happen(evs, i - 1);
    every_state_is_wf(evs.take(i - 1));
}

/// Enter has the selections own the selected text, then leaves the flag, then
/// closes the screen, then ends the session.
pub proof fn enter_pastes_and_ends(evs: Seq<Event>, i: int)
    requires
        can_happen(evs),
        0 <= i < evs.len(),
        is_enter(evs[i]),
    ensures
        ({
            let l = standing(evs.take(i)).listing->0;
            asked_at(evs, i) == (Asked::Own { text: l.list[l.sel as int].1 })
        }),
        i + 1 < evs.len() ==> asked_at(evs, i + 1) is Flag,
        i + 2 < evs.len() ==> asked_at(evs, i + 2) is Close,
        i + 3 < evs.len() ==> asked_at(evs, i + 3) is End,
        evs.len() <= i + 4,
{
    lemma_enter_is_its_own_key();
    lemma_prefix_can_happen(evs, i);
    every_state_is_wf(evs.take(i));
    assert(standing(evs.take(i)).accepts(evs[i]));
    lemma_standing(evs, i);
    if i + 1 < evs.len() {
        assert(standing(evs.take(i + 1)).accepts(evs[i + 1]));
        lemma_standing(evs, i + 1);
    }
    if i + 2 < evs.len() {
        assert(standing(evs.take(i + 2)).accepts(evs[i + 2]));
        lemma_standing(evs, i + 2);
    }
    if i + 3 < evs.len() {
        assert(standing(evs.take(i + 3)).accepts(evs[i + 3]));
        lemma_standing(evs, i + 3);
    }
    if i + 4 < evs.len() {
        assert(standing(evs.take(i + 4)).accepts(evs[i + 4]));
    }
}

/// A file is removed only upon the key that deletes, and it is the selected
/// entry's; the history is then read again.
pub proof fn only_the_selected_entry_is_removed(c: Course, ev: Event)
    requires
        c.wf(),
        c.accepts(ev),
        c.after(ev).1 is Remove,
    ensures
        ev matches Event::Key { key } && key_of(key) == Some("d"@),
        c.listing is Some,
        c.after(ev).1 == (Asked::Remove { name: c.listing->0.list[c.listing->0.sel as int].0 }),
        c.after(ev).0.after(Event::Done).1 is Close,
        c.after(ev).0.after(Event::Done).0.after(Event::Done).1 is Read,
{
}

/// A text comes back as it was stored: where it is the last one stored, with no
/// name in the directory behind its own, a session that reads the history then
/// and is told Enter at once has the selections own that text.
pub proof fn what_was_stored_is_picked_back(
    dir: Directory,
    micros: nat,
    text: Seq<char>,
    names: Seq<Seq<u8>>,
    later: Seq<Seq<u8>>,
    list: Vec<Entry>,
    enter: String,
)
    requires
        forall|n: Seq<u8>| #[trigger] dir.contains_key(n) ==> not_after(n, file_bytes(micros)),
        lists(names, written(dir, micros, text)),
        lists(later, pruned(written(dir, micros, text), names)),
        entries_of(list@) == history_in(pruned(written(dir, micros, text), names), later),
        enter@ == "ENTER"@,
    ensures
        ({
            let start = Course { listing: None, phase: Phase::Reading };
            let opening = start.after(Event::History { list }).0;
            let choosing = opening.after(Event::Done).0;
            choosing.after(Event::Key { key: Some(enter) }).1 == (Asked::Own { text })
        }),
{
    last_stored_is_read_first(dir, micros, text, names, later);
    lemma_enter_is_its_own_key();
    assert(entries_of(list@).len() == list@.len());
}

/// What each phase says of what was asked for last, and before that.
proof fn lemma_phase(evs: Seq<Event>)
    requires
        can_happen(evs),
    ensures
        evs.len() == 0 ==> standing(evs).phase is Reading,
        evs.len() > 0 ==> match (standing(evs).phase, asked_at(evs, evs.len() - 1)) {
            (Phase::Reading, Asked::Read) => true,
            (Phase::Telling, Asked::Tell { .. }) => true,
            (Phase::Opening, Asked::Open) => true,
            (Phase::Choosing, Asked::Show) => true,
            (Phase::Owning, Asked::Own { .. }) => true,
            (Phase::Flagging, Asked::Flag) => true,
            (Phase::Removing, Asked::Remove { .. }) => true,
            (Phase::Closing { again }, Asked::Close) => evs.len() > 1 && (again <==> asked_at(
                evs,
                evs.len() - 2,
            ) is Remove),
            (Phase::Ended, Asked::End) => true,
            _ => false,
        },
    decreases evs.len(),
{
    if evs.len() > 0 {
        let z = evs.len() - 1;
        assert(evs.take(z) =~= evs.drop_last());
        lemma_prefix_can_happen(evs, z);
        lemma_phase(evs.take(z));
        every_state_is_wf(evs.take(z));
        assert(standing(evs.take(z)).accepts(evs[z]));
        if z > 0 {
            assert(evs.take(z).take(z - 1) =~= evs.take(z - 1));
            assert(asked_at(evs.take(z), z - 1) == asked_at(evs, z - 1));
        }
    }
}

proof fn lemma_moment(evs: Seq<Event>, i: int)
    requires
        can_happen(evs),
        0 <= i < evs.len(),
    ensures
        can_happen(evs.take(i)),
        standing(evs.take(i)).accepts(evs[i]),
        standing(evs.take(i)).wf(),
        i > 0 ==> asked_at(evs.take(i), i - 1) == asked_at(evs, i - 1),
        i > 1 ==> asked_at(evs.take(i), i - 2) == asked_at(evs, i - 2),
{
    lemma_prefix_can_happen(evs, i);
    every_state_is_wf(evs.take(i));
    if i > 0 {
        assert(evs.take(i).take(i - 1) =~= evs.take(i - 1));
    }
    if i > 1 {
        assert(evs.take(i).take(i - 2) =~= evs.take(i - 2));
    }
}

/// A history with entries is opened, all of it, with the newest entry selected;
/// that there is none is told for two seconds.
pub proof fn the_history_is_opened(evs: Seq<Event>, i: int, list: Vec<Entry>)
    requires
        can_happen(evs),
        0 <= i < evs.len(),
        evs[i] == (Event::History { list }),
    ensures
        list@.len() > 0 ==> asked_at(evs, i) == Asked::Open,
        list@.len() > 0 ==> standing(evs.take(i + 1)).listing == Some(
            Listing { list: entries_of(list@), sel: 0 },
        ),
        list@.len() == 0 ==> asked_at(evs, i) == (Asked::Tell {
            line: "yank: no history yet (is `yank --watch` running?)"@,
            secs: 2,
        }),
{
    lemma_moment(evs, i);
    lemma_standing(evs, i);
}

/// Each key has the list do what the key means to it, and nothing else: the list
/// is shown again, the screen closed, the selected text owned or the selected file
/// removed. Nothing but a key changes the list or the selection, once there is one.
pub proof fn each_key_does_what_it_means(evs: Seq<Event>, i: int)
    requires
        can_happen(evs),
        0 <= i < evs.len(),
    ensures
        evs[i] matches Event::Key { key } ==> ({
            let p = standing(evs.take(i)).listing->0;
            &&& p.wf()
            &&& standing(evs.take(i + 1)).listing == Some(p.pressed(key_of(key)).0)
            &&& asked_at(evs, i) == match p.pressed(key_of(key)).1 {
                Chosen::Show => Asked::Show,
                Chosen::Quit => Asked::Close,
                Chosen::Take { text } => Asked::Own { text },
                Chosen::Delete { name } => Asked::Remove { name },
            }
        }),
        evs[i] is Done ==> standing(evs.take(i + 1)).listing == standing(evs.take(i)).listing,
{
    lemma_moment(evs, i);
    lemma_standing(evs, i);
}

/// What follows what was done: an open screen shows the list, owned selections are
/// flagged, and after that, and after a removal, the screen is closed. Behind a
/// closed screen the history is read again where a file was removed; otherwise the
/// session ends, and so it does after telling that there is no history.
pub proof fn what_follows_what_was_done(evs: Seq<Event>, i: int)
    requires
        can_happen(evs),
        0 <= i < evs.len(),
        evs[i] is Done,
    ensures
        i > 0,
        asked_at(evs, i - 1) == Asked::Close ==> i > 1,
        asked_at(evs, i) == match asked_at(evs, i - 1) {
            Asked::Open => Asked::Show,
            Asked::Own { .. } => Asked::Flag,
            Asked::Flag => Asked::Close,
            Asked::Remove { .. } => Asked::Close,
            Asked::Close => if asked_at(evs, i - 2) is Remove {
                Asked::Read
            } else {
                Asked::End
            },
            _ => Asked::End,
        },
{
    lemma_moment(evs, i);
    lemma_first_state(evs);
    lemma_phase(evs.take(i));
}

/// What can come is the answer to what was asked for last: the history, a key, or
/// that it is done; and nothing once the session has ended. At the start the
/// history is read.
pub proof fn only_the_answer_can_come(evs: Seq<Event>, next: Event)
    requires
        can_happen(evs),
    ensures
        evs.len() == 0 ==> (standing(evs).accepts(next) <==> next is History),
        evs.len() > 0 ==> (standing(evs).accepts(next) <==> match asked_at(evs, evs.len() - 1) {
            Asked::Read => next is History,
            Asked::Show => next is Key,
            Asked::End => false,
            _ => next is Done,
        }),
{
    lemma_phase(evs);
}

/// The view of a step and of a session leaves nothing of them out.
pub proof fn views_are_faithful(step: Step, s: Session, key: Option<String>)
    ensures
        match step {
            Step::Read => step@ == Asked::Read,
            Step::Tell { line, secs } => step@ == (Asked::Tell { line: line@, secs }),
            Step::Open => step@ == Asked::Open,
            Step::Show => step@ == Asked::Show,
            Step::Own { text } => step@ == (Asked::Own { text: text@ }),
            Step::Flag => step@ == Asked::Flag,
            Step::Remove { name } => step@ == (Asked::Remove { name: name@ }),
            Step::Close => step@ == Asked::Close,
            Step::End => step@ == Asked::End,
        },
        s@.phase == s.phase,
        s@.listing == match s.picker {
            Some(p) => Some(p@),
            None => None,
        },
        key is Some ==> key_of(key) == Some(key->0@),
        key is None ==> key_of(key) is None,
{
}

} // verus!
