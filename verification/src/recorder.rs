//! The recorder: what is done about each event of the display, and which
//! texts are worth keeping.

use vstd::prelude::*;
use vstd::utf8::{decode_utf8, encode_utf8, valid_utf8};

use crate::foreign::{
    button1, button2, button3, decode_lossy, lossy_text, masks_intersect, null_atom, primary_atom,
};
use crate::text::{chars_of, is_blank, is_space, same, trim_bounds};

verus! {

/// The largest text that is recorded, in bytes.
pub const MAX_ENTRY: usize = 65536;

/// How often the pointer is asked for before a selection is taken as it is.
pub const MAX_POLLS: u32 = 300;

/// The pause between two questions about the pointer, in milliseconds.
pub const POLL_MILLIS: u64 = 100;

/// The atoms that the recorder works with.
pub struct Atoms {
    pub clipboard: u32,
    pub utf8: u32,
    pub incr: u32,
    pub dest: u32,
}

/// What the recorder is in the middle of.
pub enum Phase {
    /// Waiting for the display.
    Idle,
    /// The pointer has been asked for, after this many answers.
    Polling { selection: u32, asked: u32 },
    /// Pausing after this many answers that a button was held.
    Pausing { selection: u32, asked: u32 },
    /// The converted selection has been asked for.
    Reading,
}

/// What the recorder is told.
pub enum Event {
    /// A selection has a new owner.
    Owner { selection: u32 },
    /// The pointer's mask, if it could be had.
    Pointer { mask: Option<u16> },
    /// The pause is over.
    Paused,
    /// A selection has been converted into a property, or into none.
    Converted { property: u32 },
    /// The property's type and value.
    Property { kind: u32, value: Vec<u8> },
    /// The property could not be had.
    NoProperty,
    /// Any other event of the display.
    Other,
    /// The display is gone.
    Gone,
}

/// What the recorder asks for.
pub enum Action {
    /// Wait for the display.
    Wait,
    /// Ask for the pointer's mask.
    AskPointer,
    /// Pause.
    Pause { millis: u64 },
    /// Have a selection converted to a target, into a property; then wait.
    Convert { selection: u32, target: u32, property: u32 },
    /// Fetch and delete a property, up to a length in units of four bytes.
    Fetch { property: u32, length: u32 },
    /// Store a text; then wait.
    Store { text: String },
    /// Stop.
    Stop,
}

/// The recorder: its atoms, the text it stored last, and its phase.
pub struct Recorder {
    pub atoms: Atoms,
    pub last: String,
    pub phase: Phase,
}

/// A recorder's state as it matters to what it does.
pub struct State {
    pub atoms: Atoms,
    pub last: Seq<char>,
    pub phase: Phase,
}

/// What is asked for, with the text by its characters.
pub enum Request {
    Wait,
    AskPointer,
    Pause { millis: u64 },
    Convert { selection: u32, target: u32, property: u32 },
    Fetch { property: u32, length: u32 },
    Store { text: Seq<char> },
    Stop,
}

impl View for Recorder {
    type V = State;

    open spec fn view(&self) -> State {
        State { atoms: self.atoms, last: self.last@, phase: self.phase }
    }
}

impl View for Action {
    type V = Request;

    open spec fn view(&self) -> Request {
        match *self {
            Action::Wait => Request::Wait,
            Action::AskPointer => Request::AskPointer,
            Action::Pause { millis } => Request::Pause { millis },
            Action::Convert { selection, target, property } => Request::Convert {
                selection,
                target,
                property,
            },
            Action::Fetch { property, length } => Request::Fetch { property, length },
            Action::Store { text } => Request::Store { text: text@ },
            Action::Stop => Request::Stop,
        }
    }
}

/// PRIMARY, the selection of the mouse, has a fixed atom.
pub open spec fn is_primary(selection: u32) -> bool {
    selection == 1
}

/// One of the first three buttons is down.
pub open spec fn is_held(mask: Option<u16>) -> bool {
    match mask {
        Some(m) => (m & 0x700) != 0,
        None => false,
    }
}

/// A text is recorded unless it is blank, too large, or what was stored last.
pub open spec fn worth_keeping(text: Seq<char>, last: Seq<char>) -> bool {
    &&& !is_blank(text)
    &&& encode_utf8(text).len() <= MAX_ENTRY
    &&& text != last
}

impl State {
    /// Only the mouse's selection is waited for, and not for longer than the
    /// polls allow.
    pub open spec fn wf(self) -> bool {
        match self.phase {
            Phase::Idle => true,
            Phase::Polling { selection, asked } => is_primary(selection) && asked < MAX_POLLS,
            Phase::Pausing { selection, asked } => is_primary(selection) && 0 < asked <= MAX_POLLS,
            Phase::Reading => true,
        }
    }

    /// The events that can come in each phase.
    pub open spec fn accepts(self, ev: Event) -> bool {
        match self.phase {
            Phase::Idle => ev is Owner || ev is Converted || ev is Other || ev is Gone,
            Phase::Polling { .. } => ev is Pointer,
            Phase::Pausing { .. } => ev is Paused,
            Phase::Reading => ev is Property || ev is NoProperty,
        }
    }

    pub open spec fn in_phase(self, phase: Phase) -> State {
        State { phase, ..self }
    }

    /// Asks for the text of a selection.
    pub open spec fn converting(self, selection: u32) -> (State, Request) {
        (
            self.in_phase(Phase::Idle),
            Request::Convert { selection, target: self.atoms.utf8, property: self.atoms.dest },
        )
    }

    /// Stores a text that is worth keeping, and passes over any other.
    pub open spec fn offered(self, text: Seq<char>) -> (State, Request) {
        if worth_keeping(text, self.last) {
            (State { last: text, phase: Phase::Idle, ..self }, Request::Store { text })
        } else {
            (self.in_phase(Phase::Idle), Request::Wait)
        }
    }

    /// What an event leads to.
    pub open spec fn after(self, ev: Event) -> (State, Request) {
        match (ev, self.phase) {
            (Event::Owner { selection }, _) => if is_primary(selection) {
                (self.in_phase(Phase::Polling { selection, asked: 0 }), Request::AskPointer)
            } else {
                self.converting(selection)
            },
            (Event::Pointer { mask }, Phase::Polling { selection, asked }) => if is_held(mask) {
                (
                    self.in_phase(Phase::Pausing { selection, asked: (asked + 1) as u32 }),
                    Request::Pause { millis: POLL_MILLIS },
                )
            } else {
                self.converting(selection)
            },
            (Event::Paused, Phase::Pausing { selection, asked }) => if asked < MAX_POLLS {
                (self.in_phase(Phase::Polling { selection, asked }), Request::AskPointer)
            } else {
                self.converting(selection)
            },
            (Event::Converted { property }, _) => if property == 0 {
                (self.in_phase(Phase::Idle), Request::Wait)
            } else {
                (
                    self.in_phase(Phase::Reading),
                    Request::Fetch {
                        property: self.atoms.dest,
                        length: (MAX_ENTRY / 4 + 1) as u32,
                    },
                )
            },
            (Event::Property { kind, value }, _) => if kind == self.atoms.incr {
                (self.in_phase(Phase::Idle), Request::Wait)
            } else {
                self.offered(lossy_text(value@))
            },
            (Event::Gone, _) => (self.in_phase(Phase::Idle), Request::Stop),
            _ => (self.in_phase(Phase::Idle), Request::Wait),
        }
    }
}

/// Whether one of the first three buttons is down.
pub fn buttons_held(mask: Option<u16>) -> (r: bool)
    ensures
        r == is_held(mask),
{
    match mask {
        Some(m) => {
            let buttons: u16 = button1() | button2() | button3();
            proof {
                assert(0x100u16 | 0x200u16 | 0x400u16 == 0x700u16) by (bit_vector);
            }
            masks_intersect(m, buttons)
        },
        None => false,
    }
}

/// Whether a text is nothing but white space.
pub fn blank(text: &str) -> (r: bool)
    ensures
        r == is_blank(text@),
{
    let v: Vec<char> = chars_of(text);
    let (lo, hi): (usize, usize) = trim_bounds(&v);
    proof {
        crate::text::blank_trims_to_nothing(text@);
    }
    lo == hi
}

impl Atoms {
    /// The selections whose owners are to be watched.
    pub fn subscriptions(&self) -> (r: Vec<u32>)
        ensures
            r@ == seq![self.clipboard, 1u32],
    {
        let mut r: Vec<u32> = Vec::new();
        r.push(self.clipboard);
        r.push(primary_atom());
        proof {
            assert(r@ =~= seq![self.clipboard, 1u32]);
        }
        r
    }
}

impl Recorder {
    /// A recorder that takes the newest entry of the history, if there is one,
    /// for what was stored last.
    pub fn new(atoms: Atoms, newest: Option<String>) -> (r: Recorder)
        ensures
            r@.wf(),
            r.atoms == atoms,
            r.phase == Phase::Idle,
            r.last@ == match newest {
                Some(t) => t@,
                None => Seq::empty(),
            },
    {
        let last: String = match newest {
            Some(t) => t,
            None => String::new(),
        };
        Recorder { atoms, last, phase: Phase::Idle }
    }

    /// Whether an event can come now.
    pub fn accepts(&self, ev: &Event) -> (r: bool)
        ensures
            r == self@.accepts(*ev),
    {
        match (&self.phase, ev) {
            (Phase::Idle, Event::Owner { .. }) => true,
            (Phase::Idle, Event::Converted { .. }) => true,
            (Phase::Idle, Event::Other) => true,
            (Phase::Idle, Event::Gone) => true,
            (Phase::Polling { .. }, Event::Pointer { .. }) => true,
            (Phase::Pausing { .. }, Event::Paused) => true,
            (Phase::Reading, Event::Property { .. }) => true,
            (Phase::Reading, Event::NoProperty) => true,
            _ => false,
        }
    }

    fn convert(&mut self, selection: u32) -> (action: Action)
        ensures
            (final(self)@, action@) == old(self)@.converting(selection),
    {
        self.phase = Phase::Idle;
        Action::Convert { selection, target: self.atoms.utf8, property: self.atoms.dest }
    }

    /// Takes the text of a selection: it is stored if it is worth keeping.
    pub fn offer(&mut self, text: String) -> (action: Action)
        ensures
            (final(self)@, action@) == old(self)@.offered(text@),
    {
        self.phase = Phase::Idle;
        let size: usize = text.as_str().as_bytes().len();
        if blank(text.as_str()) || size > MAX_ENTRY || same(text.as_str(), self.last.as_str()) {
            return Action::Wait;
        }
        self.last = text.clone();
        Action::Store { text }
    }

    /// Takes an event, and says what is to be done about it.
    pub fn step(&mut self, ev: Event) -> (action: Action)
        requires
            old(self)@.wf(),
            old(self)@.accepts(ev),
        ensures
            final(self)@.wf(),
            (final(self)@, action@) == old(self)@.after(ev),
            // Of valid UTF-8, the text that is offered is the one encoded.
            ev matches Event::Property { kind, value } ==> (kind != old(self).atoms.incr
                && valid_utf8(value@) ==> (final(self)@, action@) == old(self)@.offered(
                decode_utf8(value@),
            )),
            // Such a text is stored where it has more than white space in it, is
            // within the bound and differs from the one stored last.
            ev matches Event::Property { kind, value } ==> (kind != old(self).atoms.incr
                && valid_utf8(value@) && value@.len() <= 65536 && decode_utf8(value@)
                != old(self).last@ && (exists|i: int|
                0 <= i < decode_utf8(value@).len() && !is_space(#[trigger] decode_utf8(value@)[i]))
                ==> (action matches Action::Store { text } && text@ == decode_utf8(value@)
                && final(self).last@ == decode_utf8(value@))),
            // A value over the bound is passed over, whatever its bytes are.
            ev matches Event::Property { kind, value } ==> (value@.len() > MAX_ENTRY ==> action@
                == Request::Wait && final(self)@.last == old(self)@.last),
    {
        match ev {
            Event::Owner { selection } => {
                if selection == primary_atom() {
                    self.phase = Phase::Polling { selection, asked: 0 };
                    Action::AskPointer
                } else {
                    self.convert(selection)
                }
            },
            Event::Pointer { mask } => {
                match self.phase {
                    Phase::Polling { selection, asked } => {
                        if buttons_held(mask) {
                            self.phase = Phase::Pausing { selection, asked: asked + 1 };
                            Action::Pause { millis: POLL_MILLIS }
                        } else {
                            self.convert(selection)
                        }
                    },
                    _ => Action::Wait,
                }
            },
            Event::Paused => {
                match self.phase {
                    Phase::Pausing { selection, asked } => {
                        if asked < MAX_POLLS {
                            self.phase = Phase::Polling { selection, asked };
                            Action::AskPointer
                        } else {
                            self.convert(selection)
                        }
                    },
                    _ => Action::Wait,
                }
            },
            Event::Converted { property } => {
                if property == null_atom() {
                    self.phase = Phase::Idle;
                    Action::Wait
                } else {
                    self.phase = Phase::Reading;
                    Action::Fetch { property: self.atoms.dest, length: (MAX_ENTRY / 4) as u32 + 1 }
                }
            },
            Event::Property { kind, value } => {
                if kind == self.atoms.incr {
                    self.phase = Phase::Idle;
                    Action::Wait
                } else {
                    let text: String = decode_lossy(&value);
                    proof {
                        if valid_utf8(value@) {
                            vstd::utf8::decode_utf8_encode_utf8(value@);
                        }
                    }
                    self.offer(text)
                }
            },
            Event::NoProperty => {
                self.phase = Phase::Idle;
                Action::Wait
            },
            Event::Other => {
                self.phase = Phase::Idle;
                Action::Wait
            },
            Event::Gone => {
                self.phase = Phase::Idle;
                Action::Stop
            },
        }
    }
}

} // verus!
