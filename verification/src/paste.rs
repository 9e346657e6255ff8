//! Pasting into a window: it is given the focus, and once it has it, one
//! keystroke is sent.

use vstd::prelude::*;

verus! {

/// The pause before anything else, in milliseconds.
pub const SETTLE_MILLIS: u64 = 250;

/// The pause before each question about the focus.
pub const FOCUS_MILLIS: u64 = 50;

/// The pause between the focus and the keystroke.
pub const LAND_MILLIS: u64 = 120;

/// How often the focus is asked for.
pub const MAX_ASKS: u32 = 20;

/// What the pasting is in the middle of.
pub enum Phase {
    /// The first pause.
    Settling,
    Connecting,
    /// Looking for the atom of the activation message.
    Looking,
    /// Sending the activation message.
    Activating,
    /// Pausing before the focus is asked for, after this many answers.
    Pausing { asked: u32 },
    /// The focus has been asked for, after this many answers.
    Asking { asked: u32 },
    /// The last pause, with the focus on the window.
    Landing,
    Pressing,
    Done,
}

/// What the pasting is told.
pub enum Event {
    /// The pause is over.
    Paused,
    /// Whether there is a display.
    Connected { ok: bool },
    /// The atom of the activation message, if there is one.
    Found { atom: Option<u32> },
    /// The activation message was sent.
    Sent,
    /// The window with the focus, if it could be had.
    Focus { window: Option<u32> },
    /// The keystroke was sent.
    Pressed,
}

/// What the pasting asks for.
pub enum Action {
    Pause { millis: u64 },
    Connect,
    /// Look for the atom of the activation message.
    Look,
    /// Send the activation message: its format, its window, its kind, and the
    /// words of its data, of which the first says that a user's tool asks for
    /// it.
    Activate { format: u8, window: u32, kind: u32, data: [u32; 5] },
    AskFocus,
    /// Send the keystroke.
    Press,
    Stop,
}

/// Pasting into one window.
pub struct Paste {
    pub target: u32,
    pub phase: Phase,
}

/// Where the focus counts as being: on no window, where it could not be had.
pub open spec fn focus_of(window: Option<u32>) -> u32 {
    match window {
        Some(w) => w,
        None => 0,
    }
}

impl Paste {
    /// The focus is not asked for more often than it may be.
    pub open spec fn wf(self) -> bool {
        match self.phase {
            Phase::Pausing { asked } => asked < MAX_ASKS,
            Phase::Asking { asked } => asked < MAX_ASKS,
            _ => true,
        }
    }

    /// The event that can come in each phase.
    pub open spec fn accepted(self, ev: Event) -> bool {
        match self.phase {
            Phase::Settling => ev is Paused,
            Phase::Connecting => ev is Connected,
            Phase::Looking => ev is Found,
            Phase::Activating => ev is Sent,
            Phase::Pausing { .. } => ev is Paused,
            Phase::Asking { .. } => ev is Focus,
            Phase::Landing => ev is Paused,
            Phase::Pressing => ev is Pressed,
            Phase::Done => false,
        }
    }

    pub open spec fn going(self, phase: Phase, action: Action) -> (Paste, Action) {
        (Paste { target: self.target, phase }, action)
    }

    /// What an event leads to.
    pub open spec fn after(self, ev: Event) -> (Paste, Action) {
        match (self.phase, ev) {
            (Phase::Settling, Event::Paused) => self.going(Phase::Connecting, Action::Connect),
            (Phase::Connecting, Event::Connected { ok }) => if ok {
                self.going(Phase::Looking, Action::Look)
            } else {
                self.going(Phase::Pressing, Action::Press)
            },
            (Phase::Looking, Event::Found { atom }) => match atom {
                Some(kind) => self.going(
                    Phase::Activating,
                    Action::Activate { format: 32, window: self.target, kind, data: [2, 0, 0, 0, 0] },
                ),
                None => self.going(
                    Phase::Pausing { asked: 0 },
                    Action::Pause { millis: FOCUS_MILLIS },
                ),
            },
            (Phase::Activating, Event::Sent) => self.going(
                Phase::Pausing { asked: 0 },
                Action::Pause { millis: FOCUS_MILLIS },
            ),
            (Phase::Pausing { asked }, Event::Paused) => self.going(
                Phase::Asking { asked },
                Action::AskFocus,
            ),
            (Phase::Asking { asked }, Event::Focus { window }) => if focus_of(window)
                == self.target {
                self.going(Phase::Landing, Action::Pause { millis: LAND_MILLIS })
            } else if asked + 1 < MAX_ASKS {
                self.going(
                    Phase::Pausing { asked: (asked + 1) as u32 },
                    Action::Pause { millis: FOCUS_MILLIS },
                )
            } else {
                self.going(Phase::Done, Action::Stop)
            },
            (Phase::Landing, Event::Paused) => self.going(Phase::Pressing, Action::Press),
            _ => self.going(Phase::Done, Action::Stop),
        }
    }

    /// The start, and what it asks for.
    pub fn start(target: u32) -> (r: (Paste, Action))
        ensures
            r.0.wf(),
            r.0 == (Paste { target, phase: Phase::Settling }),
            r.1 == (Action::Pause { millis: SETTLE_MILLIS }),
    {
        (Paste { target, phase: Phase::Settling }, Action::Pause { millis: SETTLE_MILLIS })
    }

    /// Whether an event can come now.
    pub fn accepts(&self, ev: &Event) -> (r: bool)
        ensures
            r == self.accepted(*ev),
    {
        match (&self.phase, ev) {
            (Phase::Settling, Event::Paused) => true,
            (Phase::Connecting, Event::Connected { .. }) => true,
            (Phase::Looking, Event::Found { .. }) => true,
            (Phase::Activating, Event::Sent) => true,
            (Phase::Pausing { .. }, Event::Paused) => true,
            (Phase::Asking { .. }, Event::Focus { .. }) => true,
            (Phase::Landing, Event::Paused) => true,
            (Phase::Pressing, Event::Pressed) => true,
            _ => false,
        }
    }

    /// Takes an event, and says what is to be done about it.
    pub fn step(&mut self, ev: Event) -> (action: Action)
        requires
            old(self).wf(),
            old(self).accepted(ev),
        ensures
            final(self).wf(),
            (*final(self), action) == old(self).after(ev),
    {
        let target: u32 = self.target;
        let (phase, action): (Phase, Action) = match (&self.phase, ev) {
            (Phase::Settling, Event::Paused) => (Phase::Connecting, Action::Connect),
            (Phase::Connecting, Event::Connected { ok }) => if ok {
                (Phase::Looking, Action::Look)
            } else {
                (Phase::Pressing, Action::Press)
            },
            (Phase::Looking, Event::Found { atom }) => match atom {
                Some(kind) => (
                    Phase::Activating,
                    Action::Activate { format: 32, window: target, kind, data: [2, 0, 0, 0, 0] },
                ),
                None => (Phase::Pausing { asked: 0 }, Action::Pause { millis: FOCUS_MILLIS }),
            },
            (Phase::Activating, Event::Sent) => (
                Phase::Pausing { asked: 0 },
                Action::Pause { millis: FOCUS_MILLIS },
            ),
            (Phase::Pausing { asked }, Event::Paused) => (
                Phase::Asking { asked: *asked },
                Action::AskFocus,
            ),
            (Phase::Asking { asked }, Event::Focus { window }) => {
                let focus: u32 = match window {
                    Some(w) => w,
                    None => 0,
                };
                if focus == target {
                    (Phase::Landing, Action::Pause { millis: LAND_MILLIS })
                } else if *asked + 1 < MAX_ASKS {
                    (
                        Phase::Pausing { asked: *asked + 1 },
                        Action::Pause { millis: FOCUS_MILLIS },
                    )
                } else {
                    (Phase::Done, Action::Stop)
                }
            },
            (Phase::Landing, Event::Paused) => (Phase::Pressing, Action::Press),
            _ => (Phase::Done, Action::Stop),
        };
        self.phase = phase;
        action
    }
}

/// The command that sends the keystroke. It leaves the modifiers alone.
pub fn keystroke() -> (argv: Vec<String>)
    ensures
        argv@.len() == 3,
        argv@[0]@ == "xdotool"@,
        argv@[1]@ == "key"@,
        argv@[2]@ == "shift+Insert"@,
{
    let mut argv: Vec<String> = Vec::new();
    argv.push("xdotool".to_owned());
    argv.push("key".to_owned());
    argv.push("shift+Insert".to_owned());
    argv
}

/// Where the pasting stands after some events.
pub open spec fn standing(target: u32, evs: Seq<Event>) -> Paste
    decreases evs.len(),
{
    if evs.len() == 0 {
        Paste { target, phase: Phase::Settling }
    } else {
        standing(target, evs.drop_last()).after(evs.last()).0
    }
}

/// What is asked for upon the event at position `i`.
pub open spec fn action_at(target: u32, evs: Seq<Event>, i: int) -> Action {
    standing(target, evs.take(i)).after(evs[i]).1
}

/// Every event is one that can come.
pub open spec fn can_happen(target: u32, evs: Seq<Event>) -> bool {
    forall|i: int|
        0 <= i < evs.len() ==> standing(target, #[trigger] evs.take(i)).accepted(evs[i])
}

proof fn lemma_prefix_can_happen(target: u32, evs: Seq<Event>, i: int)
    requires
        can_happen(target, evs),
        0 <= i <= evs.len(),
    ensures
        can_happen(target, evs.take(i)),
{
    let front = evs.take(i);
    assert forall|k: int| 0 <= k < front.len() implies standing(
        target,
        #[trigger] front.take(k),
    ).accepted(front[k]) by {
        assert(front.take(k) =~= evs.take(k));
    }
}

proof fn lemma_standing(target: u32, evs: Seq<Event>, i: int)
    requires
        0 <= i < evs.len(),
    ensures
        standing(target, evs.take(i + 1)) == standing(target, evs.take(i)).after(evs[i]).0,
{
    assert(evs.take(i + 1).drop_last() =~= evs.take(i));
}

proof fn lemma_target_stays(target: u32, evs: Seq<Event>)
    ensures
        standing(target, evs).target == target,
    decreases evs.len(),
{
    if evs.len() > 0 {
        lemma_target_stays(target, evs.drop_last());
    }
}

/// Every state of the pasting is well-formed, so the focus is asked for no more
/// often than it may be.
pub proof fn every_state_is_wf(target: u32, evs: Seq<Event>)
    ensures
        standing(target, evs).wf(),
    decreases evs.len(),
{
    if evs.len() > 0 {
        every_state_is_wf(target, evs.drop_last());
    }
}

/// The keystroke is sent only once the window has the focus: where it is sent,
/// the last answer about the focus, just before the last pause, named the
/// window. The one exception is that there is no display to ask. An answer that
/// could not be had names no window, which is the window zero.
pub proof fn keystroke_needs_the_focus(target: u32, evs: Seq<Event>, i: int)
    requires
        can_happen(target, evs),
        0 <= i < evs.len(),
        action_at(target, evs, i) is Press,
    ensures
        evs[i] == (Event::Connected { ok: false }) || (evs[i] is Paused && i > 0 && (evs[i
            - 1] matches Event::Focus { window } && focus_of(window) == target && (target != 0
            ==> window == Some(target)))),
{
    let s = standing(target, evs.take(i));
    assert(s.accepted(evs[i]));
    if s.phase is Landing {
        if i == 0 {
            assert(evs.take(0) =~= Seq::<Event>::empty());
        } else {
            lemma_standing(target, evs, i - 1);
            lemma_target_stays(target, evs.take(i - 1));
            assert(standing(target, evs.take(i - 1)).accepted(evs[i - 1]));
        }
    }
}

/// Without the focus nothing is pasted: where no answer about the focus ever
/// names the window, and there is a display, no keystroke is sent.
pub proof fn no_focus_no_keystroke(target: u32, evs: Seq<Event>, i: int)
    requires
        can_happen(target, evs),
        forall|k: int|
            0 <= k < evs.len() ==> !(#[trigger] evs[k] matches Event::Focus { window }
                && focus_of(window) == target),
        forall|k: int|
            0 <= k < evs.len() ==> #[trigger] evs[k] != (Event::Connected { ok: false }),
        0 <= i < evs.len(),
    ensures
        !(action_at(target, evs, i) is Press),
{
    if action_at(target, evs, i) is Press {
        keystroke_needs_the_focus(target, evs, i);
        assert(evs[i] != (Event::Connected { ok: false }));
        assert(!(evs[i - 1] matches Event::Focus { window } && focus_of(window) == target));
    }
}

/// Once the focus is on the window, the keystroke follows after one pause.
pub proof fn focus_brings_the_keystroke(target: u32, evs: Seq<Event>, i: int)
    requires
        can_happen(target, evs),
        0 <= i,
        i + 1 < evs.len(),
        evs[i] matches Event::Focus { window } && focus_of(window) == target,
    ensures
        action_at(target, evs, i) == (Action::Pause { millis: LAND_MILLIS }),
        action_at(target, evs, i + 1) is Press,
{
    lemma_standing(target, evs, i);
    lemma_target_stays(target, evs.take(i));
    assert(standing(target, evs.take(i)).accepted(evs[i]));
    assert(standing(target, evs.take(i + 1)).accepted(evs[i + 1]));
}

/// One keystroke is sent, and not a second.
pub proof fn one_keystroke_at_most(target: u32, evs: Seq<Event>, i: int, j: int)
    requires
        can_happen(target, evs),
        0 <= i < j < evs.len(),
        action_at(target, evs, i) is Press,
    ensures
        !(action_at(target, evs, j) is Press),
{
    lemma_standing(target, evs, i);
    assert(standing(target, evs.take(i)).accepted(evs[i]));
    assert(standing(target, evs.take(i + 1)).accepted(evs[i + 1]));
    lemma_standing(target, evs, i + 1);
    if i + 2 < evs.len() {
        assert(standing(target, evs.take(i + 2)).accepted(evs[i + 2]));
    }
}

/// How many events can still come.
pub open spec fn events_left(phase: Phase) -> nat {
    match phase {
        Phase::Settling => 2 * (MAX_ASKS as nat) + 6,
        Phase::Connecting => 2 * (MAX_ASKS as nat) + 5,
        Phase::Looking => 2 * (MAX_ASKS as nat) + 4,
        Phase::Activating => 2 * (MAX_ASKS as nat) + 3,
        Phase::Pausing { asked } => (2 * (MAX_ASKS - asked) + 2) as nat,
        Phase::Asking { asked } => (2 * (MAX_ASKS - asked) + 1) as nat,
        Phase::Landing => 2,
        Phase::Pressing => 1,
        Phase::Done => 0,
    }
}

/// Pasting ends: every event leaves fewer to come, and it stops where none is
/// left.
pub proof fn pasting_ends(p: Paste, ev: Event)
    requires
        p.wf(),
        p.accepted(ev),
    ensures
        events_left(p.after(ev).0.phase) < events_left(p.phase),
        p.after(ev).1 is Stop <==> p.after(ev).0.phase is Done,
{
}

/// The milliseconds of all pauses before questions about the focus.
pub open spec fn focus_wait(target: u32, evs: Seq<Event>) -> nat
    decreases evs.len(),
{
    if evs.len() == 0 {
        0
    } else {
        let front = evs.drop_last();
        focus_wait(target, front) + if standing(target, front).after(evs.last()).1 == (
        Action::Pause { millis: FOCUS_MILLIS }) {
            FOCUS_MILLIS as nat
        } else {
            0
        }
    }
}

/// The focus is waited for up to a second.
pub proof fn focus_is_waited_for_up_to_a_second(target: u32, evs: Seq<Event>)
    requires
        can_happen(target, evs),
    ensures
        focus_wait(target, evs) <= 1000,
{
    lemma_focus_wait(target, evs);
}

proof fn lemma_focus_wait(target: u32, evs: Seq<Event>)
    requires
        can_happen(target, evs),
    ensures
        match standing(target, evs).phase {
            Phase::Pausing { asked } => asked < MAX_ASKS && focus_wait(target, evs) == (asked + 1)
                * FOCUS_MILLIS,
            Phase::Asking { asked } => asked < MAX_ASKS && focus_wait(target, evs) == (asked + 1)
                * FOCUS_MILLIS,
            Phase::Landing | Phase::Pressing | Phase::Done => focus_wait(target, evs) <= MAX_ASKS
                * FOCUS_MILLIS,
            _ => focus_wait(target, evs) == 0,
        },
    decreases evs.len(),
{
    if evs.len() > 0 {
        let z = evs.len() - 1;
        assert(evs.take(z) =~= evs.drop_last());
        lemma_prefix_can_happen(target, evs, z);
        lemma_focus_wait(target, evs.take(z));
        assert(standing(target, evs.take(z)).accepted(evs[z]));
    }
}

/// How many answers about the focus have come.
pub open spec fn answers(evs: Seq<Event>) -> nat
    decreases evs.len(),
{
    if evs.len() == 0 {
        0
    } else {
        answers(evs.drop_last()) + if evs.last() is Focus {
            1nat
        } else {
            0nat
        }
    }
}

/// The event is an answer that the focus is on the window; one that could not be
/// had counts as the window zero.
pub open spec fn is_on(ev: Event, target: u32) -> bool {
    ev matches Event::Focus { window } && (window == Some(target) || (window is None && target
        == 0))
}

/// What each phase says of the events before it.
proof fn lemma_phase(target: u32, evs: Seq<Event>)
    requires
        can_happen(target, evs),
    ensures
        match standing(target, evs).phase {
            Phase::Settling => evs.len() == 0,
            Phase::Connecting => evs.len() == 1 && evs.last() is Paused,
            Phase::Looking => evs.len() == 2 && evs.last() == (Event::Connected { ok: true }),
            Phase::Activating => evs.len() == 3 && (evs.last() matches Event::Found { atom }
                && atom is Some),
            Phase::Pausing { asked } => evs.len() > 2 && asked == answers(evs) && asked < 20
                && !(evs.last() is Paused) && !is_on(evs.last(), target),
            Phase::Asking { asked } => evs.len() > 3 && asked == answers(evs) && asked < 20
                && evs.last() is Paused,
            Phase::Landing => evs.len() > 4 && is_on(evs.last(), target),
            Phase::Pressing => evs.len() > 1 && (evs.last() is Paused || evs.last() is Connected),
            Phase::Done => evs.len() > 2,
        },
        evs.len() <= 3 ==> answers(evs) == 0,
    decreases evs.len(),
{
    if evs.len() > 0 {
        let z = evs.len() - 1;
        assert(evs.take(z) =~= evs.drop_last());
        lemma_prefix_can_happen(target, evs, z);
        lemma_phase(target, evs.take(z));
        lemma_target_stays(target, evs.take(z));
        assert(standing(target, evs.take(z)).accepted(evs[z]));
    }
}

proof fn lemma_moment(target: u32, evs: Seq<Event>, i: int)
    requires
        can_happen(target, evs),
        0 <= i < evs.len(),
    ensures
        can_happen(target, evs.take(i)),
        standing(target, evs.take(i)).accepted(evs[i]),
        standing(target, evs.take(i)).target == target,
        evs.take(i + 1).drop_last() == evs.take(i),
        i > 0 ==> evs.take(i).last() == evs[i - 1],
{
    lemma_prefix_can_happen(target, evs, i);
    lemma_target_stays(target, evs.take(i));
    assert(evs.take(i + 1).drop_last() =~= evs.take(i));
}

/// After the first pause the display is connected to. With a display, the atom of
/// the activation message is looked for; without one, the keystroke is sent.
pub proof fn pasting_begins_with_the_display(target: u32, evs: Seq<Event>, i: int)
    requires
        can_happen(target, evs),
        0 <= i < evs.len(),
    ensures
        i == 0 <==> action_at(target, evs, i) == Action::Connect,
        i == 1 <==> evs[i] is Connected,
        evs[i] == (Event::Connected { ok: true }) <==> action_at(target, evs, i) == Action::Look,
        evs[i] == (Event::Connected { ok: false }) ==> action_at(target, evs, i) == Action::Press,
{
    lemma_moment(target, evs, i);
    lemma_phase(target, evs.take(i));
    if i == 1 {
        lemma_standing(target, evs, 0);
        lemma_moment(target, evs, 0);
        lemma_phase(target, evs.take(0));
    }
}

/// The target is activated: where the atom of the activation message is found, a
/// message of that kind is sent, of 32-bit words, for the window that the pasting
/// was started with, whose data says that a user's tool asks for it. Nothing else
/// is ever sent.
pub proof fn the_target_is_activated(target: u32, evs: Seq<Event>, i: int)
    requires
        can_happen(target, evs),
        0 <= i < evs.len(),
    ensures
        evs[i] matches Event::Found { atom } ==> (atom matches Some(kind) ==> action_at(
            target,
            evs,
            i,
        ) == (Action::Activate { format: 32, window: target, kind, data: [2, 0, 0, 0, 0] })),
        evs[i] == (Event::Found { atom: None }) ==> action_at(target, evs, i) == (Action::Pause {
            millis: 50,
        }),
        evs[i] is Sent ==> action_at(target, evs, i) == (Action::Pause { millis: 50 }),
        action_at(target, evs, i) is Activate ==> (evs[i] matches Event::Found { atom } && atom
            is Some),
{
    lemma_moment(target, evs, i);
}

/// Nobody asks for the focus before the window has been asked to take it: where
/// there is a display, the atom has been looked for before the first question, and
/// where it was found, the message has been sent.
pub proof fn no_question_before_the_activation(target: u32, evs: Seq<Event>, j: int)
    requires
        can_happen(target, evs),
        0 <= j < evs.len(),
        action_at(target, evs, j) is AskFocus,
    ensures
        j > 2,
        evs[2] is Found,
        evs[2] matches Event::Found { atom } ==> (atom matches Some(kind) ==> (action_at(
            target,
            evs,
            2,
        ) == (Action::Activate { format: 32, window: target, kind, data: [2, 0, 0, 0, 0] })
            && evs[3] is Sent)),
{
    lemma_moment(target, evs, j);
    lemma_phase(target, evs.take(j));
    lemma_moment(target, evs, 2);
    lemma_phase(target, evs.take(2));
    lemma_standing(target, evs, 2);
    lemma_moment(target, evs, 1);
    lemma_standing(target, evs, 1);
    lemma_phase(target, evs.take(1));
    lemma_moment(target, evs, 0);
    lemma_standing(target, evs, 0);
    lemma_phase(target, evs.take(0));
    if standing(target, evs.take(2)).phase is Pressing {
        lemma_moment(target, evs, 3);
        lemma_standing(target, evs, 3);
        if j > 3 {
            lemma_moment(target, evs, 4);
        }
    }
    lemma_moment(target, evs, 3);
}

/// Each answer about the focus: on the window, there is one more pause; elsewhere,
/// a pause before the next question, up to twenty answers, and then the end.
pub proof fn each_answer_about_the_focus(target: u32, evs: Seq<Event>, i: int)
    requires
        can_happen(target, evs),
        0 <= i < evs.len(),
        evs[i] is Focus,
    ensures
        action_at(target, evs, i) == if is_on(evs[i], target) {
            Action::Pause { millis: 120 }
        } else if answers(evs.take(i + 1)) < 20 {
            Action::Pause { millis: 50 }
        } else {
            Action::Stop
        },
        1 <= answers(evs.take(i + 1)) <= 20,
{
    lemma_moment(target, evs, i);
    lemma_phase(target, evs.take(i));
}

/// Each pause but the first: after an answer that the focus is on the window, the
/// keystroke is sent; after anything else, the focus is asked for.
pub proof fn each_pause_leads_on(target: u32, evs: Seq<Event>, i: int)
    requires
        can_happen(target, evs),
        0 < i < evs.len(),
        evs[i] is Paused,
    ensures
        action_at(target, evs, i) == if is_on(evs[i - 1], target) {
            Action::Press
        } else {
            Action::AskFocus
        },
{
    lemma_moment(target, evs, i);
    lemma_phase(target, evs.take(i));
}

/// The keystroke ends the pasting.
pub proof fn the_keystroke_is_the_end(target: u32, evs: Seq<Event>, i: int)
    requires
        can_happen(target, evs),
        0 <= i < evs.len(),
        evs[i] is Pressed,
    ensures
        action_at(target, evs, i) == Action::Stop,
        evs.len() == i + 1,
{
    lemma_moment(target, evs, i);
    lemma_standing(target, evs, i);
    if i + 1 < evs.len() {
        lemma_moment(target, evs, i + 1);
    }
}

/// What can come is the answer to what was asked for last, whatever it says, and
/// nothing once the pasting has stopped. At the start there is a pause.
pub proof fn only_the_answer_can_come(target: u32, evs: Seq<Event>, next: Event)
    requires
        can_happen(target, evs),
    ensures
        evs.len() == 0 ==> (standing(target, evs).accepted(next) <==> next is Paused),
        evs.len() > 0 ==> (standing(target, evs).accepted(next) <==> match action_at(
            target,
            evs,
            evs.len() - 1,
        ) {
            Action::Pause { .. } => next is Paused,
            Action::Connect => next is Connected,
            Action::Look => next is Found,
            Action::Activate { .. } => next is Sent,
            Action::AskFocus => next is Focus,
            Action::Press => next is Pressed,
            Action::Stop => false,
        }),
{
    if evs.len() > 0 {
        let z = evs.len() - 1;
        lemma_moment(target, evs, z);
        lemma_standing(target, evs, z);
        assert(evs.take(z + 1) =~= evs);
    }
}

} // verus!
