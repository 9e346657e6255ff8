//! What holds of every run of the recorder.

use vstd::prelude::*;
use vstd::utf8::{decode_utf8, encode_utf8, valid_utf8};

use crate::foreign::lossy_text;
use crate::recorder::{
    is_held, is_primary, Action, Event, Phase, Recorder, Request, State, MAX_ENTRY, MAX_POLLS,
};
use crate::text::{is_blank, is_space};

verus! {

/// The state after some events.
pub open spec fn state_after(s: State, evs: Seq<Event>) -> State
    decreases evs.len(),
{
    if evs.len() == 0 {
        s
    } else {
        state_after(s, evs.drop_last()).after(evs.last()).0
    }
}

/// What is asked for upon the event at position `i`.
pub open spec fn request_at(s: State, evs: Seq<Event>, i: int) -> Request {
    state_after(s, evs.take(i)).after(evs[i]).1
}

/// Every event is one that can come.
pub open spec fn can_happen(s: State, evs: Seq<Event>) -> bool {
    forall|i: int|
        0 <= i < evs.len() ==> state_after(s, #[trigger] evs.take(i)).accepts(evs[i])
}

proof fn lemma_prefix_can_happen(s: State, evs: Seq<Event>, i: int)
    requires
        can_happen(s, evs),
        0 <= i <= evs.len(),
    ensures
        can_happen(s, evs.take(i)),
{
    let front = evs.take(i);
    assert forall|k: int| 0 <= k < front.len() implies state_after(
        s,
        #[trigger] front.take(k),
    ).accepts(front[k]) by {
        assert(front.take(k) =~= evs.take(k));
    }
}

/// A recorder's state stays well-formed.
pub proof fn every_state_is_wf(s: State, evs: Seq<Event>)
    requires
        s.wf(),
        can_happen(s, evs),
    ensures
        state_after(s, evs).wf(),
    decreases evs.len(),
{
    if evs.len() > 0 {
        let z = evs.len() - 1;
        assert(evs.take(z) =~= evs.drop_last());
        lemma_prefix_can_happen(s, evs, z);
        every_state_is_wf(s, evs.take(z));
        assert(state_after(s, evs.take(z)).accepts(evs[z]));
    }
}

/// The text remembered as the last one changes only by storing, to what is
/// stored.
proof fn lemma_last_between_stores(s: State, evs: Seq<Event>, i: int, j: int)
    requires
        0 <= i <= j <= evs.len(),
        forall|k: int| i <= k < j ==> !(#[trigger] request_at(s, evs, k) is Store),
    ensures
        state_after(s, evs.take(j)).last == state_after(s, evs.take(i)).last,
    decreases j - i,
{
    if i < j {
        lemma_last_between_stores(s, evs, i, j - 1);
        assert(evs.take(j).drop_last() =~= evs.take(j - 1));
        assert(evs.take(j).last() == evs[j - 1]);
        assert(!(request_at(s, evs, j - 1) is Store));
    }
}

/// No text is stored twice in a row: of two stores with none between them, the
/// texts differ.
pub proof fn no_text_is_stored_twice_in_a_row(s: State, evs: Seq<Event>, i: int, j: int)
    requires
        0 <= i < j < evs.len(),
        request_at(s, evs, i) is Store,
        request_at(s, evs, j) is Store,
        forall|k: int| i < k < j ==> !(#[trigger] request_at(s, evs, k) is Store),
    ensures
        request_at(s, evs, i)->text != request_at(s, evs, j)->text,
{
    lemma_last_between_stores(s, evs, i + 1, j);
    assert(evs.take(i + 1).drop_last() =~= evs.take(i));
    assert(evs.take(i + 1).last() == evs[i]);
}

/// The first text that is stored is not the one that the recorder started with.
pub proof fn first_store_is_new(s: State, evs: Seq<Event>, j: int)
    requires
        0 <= j < evs.len(),
        request_at(s, evs, j) is Store,
        forall|k: int| 0 <= k < j ==> !(#[trigger] request_at(s, evs, k) is Store),
    ensures
        request_at(s, evs, j)->text != s.last,
{
    lemma_last_between_stores(s, evs, 0, j);
    assert(evs.take(0) =~= Seq::<Event>::empty());
}

/// Nothing blank and nothing too large is ever stored.
pub proof fn what_is_stored_is_text_within_bounds(s: State, evs: Seq<Event>, i: int)
    requires
        0 <= i < evs.len(),
        request_at(s, evs, i) is Store,
    ensures
        !is_blank(request_at(s, evs, i)->text),
        encode_utf8(request_at(s, evs, i)->text).len() <= MAX_ENTRY,
{
}

/// What a fetch gives of a property that holds `whole`: no more than the units
/// of four bytes that were asked for.
pub open spec fn fetched(whole: Seq<u8>, length: u32) -> Seq<u8> {
    if whole.len() > 4 * length {
        whole.take(4 * length)
    } else {
        whole
    }
}

/// A copy that is larger than the bound is not recorded, and changes nothing of
/// what the recorder remembers, whatever its bytes are and though only a part of
/// it is fetched. All that is asked of the text made of that part is that it is
/// no shorter.
pub proof fn larger_copies_are_not_recorded(
    s: State,
    property: u32,
    whole: Seq<u8>,
    text: Seq<char>,
)
    requires
        property != 0,
        whole.len() > MAX_ENTRY,
        fetched(whole, s.after(Event::Converted { property }).1->length).len() <= encode_utf8(
            text,
        ).len(),
    ensures
        s.after(Event::Converted { property }).1 is Fetch,
        s.offered(text) == (s.in_phase(Phase::Idle), Request::Wait),
{
}

/// What is stored of a copy of valid text is that text, byte by byte.
pub proof fn what_is_copied_is_what_is_stored(s: State, value: Seq<u8>)
    requires
        valid_utf8(value),
        s.offered(decode_utf8(value)).1 is Store,
    ensures
        encode_utf8(s.offered(decode_utf8(value)).1->text) == value,
{
    vstd::utf8::decode_utf8_encode_utf8(value);
}

/// A copy of the clipboard is asked for at once.
pub proof fn clipboard_is_converted_at_once(s: State, selection: u32)
    requires
        !is_primary(selection),
    ensures
        s.after(Event::Owner { selection }).1 == (Request::Convert {
            selection,
            target: s.atoms.utf8,
            property: s.atoms.dest,
        }),
{
}

/// A selection of the mouse is asked for only once no button is held, or once
/// the pointer has been asked for as often as it may be.
pub proof fn a_drag_is_waited_out(s: State, evs: Seq<Event>, i: int)
    requires
        s.wf(),
        can_happen(s, evs),
        0 <= i < evs.len(),
        request_at(s, evs, i) is Convert,
        is_primary(request_at(s, evs, i)->Convert_selection),
    ensures
        evs[i] matches Event::Pointer { mask } && !is_held(mask) || evs[i] is Paused && (
        state_after(s, evs.take(i)).phase matches Phase::Pausing { selection, asked } && asked
            == MAX_POLLS),
{
    lemma_prefix_can_happen(s, evs, i);
    every_state_is_wf(s, evs.take(i));
    assert(state_after(s, evs.take(i)).accepts(evs[i]));
}

/// Only a drag is polled: the recorder pauses only upon an answer that a button
/// is held, and asks for the pointer only upon a new selection of the mouse or
/// after such a pause.
pub proof fn only_a_drag_is_polled(s: State, ev: Event)
    requires
        s.accepts(ev),
    ensures
        s.after(ev).1 is Pause ==> (ev matches Event::Pointer { mask } && is_held(mask)),
        s.after(ev).1 is AskPointer ==> ((ev matches Event::Owner { selection } && is_primary(
            selection,
        )) || ev is Paused),
{
}

/// How many steps a wait for the mouse can still take.
pub open spec fn steps_left(phase: Phase) -> nat {
    match phase {
        Phase::Polling { asked, .. } => (2 * (MAX_POLLS - asked)) as nat,
        Phase::Pausing { asked, .. } => (2 * (MAX_POLLS - asked) + 1) as nat,
        _ => 0,
    }
}

/// A wait for the mouse ends: every step of it either asks for the selection
/// or leaves fewer steps.
pub proof fn waiting_for_the_mouse_ends(s: State, ev: Event)
    requires
        s.wf(),
        s.accepts(ev),
        s.phase is Polling || s.phase is Pausing,
    ensures
        s.after(ev).1 is Convert || steps_left(s.after(ev).0.phase) < steps_left(s.phase),
        s.after(ev).1 is Convert ==> s.after(ev).0.phase is Idle,
{
}

/// The first three buttons are the ones that hold a selection back, each by its
/// own bit of the mask, and none is held where the mask could not be had.
pub proof fn a_button_is_held_by_its_bit(mask: Option<u16>)
    ensures
        is_held(mask) <==> (mask matches Some(m) && ((m & 0x100) != 0 || (m & 0x200) != 0 || (m
            & 0x400) != 0)),
{
    if let Some(m) = mask {
        assert((m & 0x700) != 0 <==> (m & 0x100) != 0 || (m & 0x200) != 0 || (m & 0x400) != 0)
            by (bit_vector);
    }
}

/// Every copy is recorded: its text is stored, and remembered, exactly where it
/// has more than white space in it, takes no more than 65536 bytes, differs from
/// the one stored last and did not come in pieces. Otherwise what is remembered
/// stays.
pub proof fn every_copy_is_recorded(s: State, kind: u32, value: Vec<u8>)
    requires
        s.phase is Reading,
    ensures
        ({
            let text = lossy_text(value@);
            let (next, request) = s.after(Event::Property { kind, value });
            let reasons = {
                ||| kind == s.atoms.incr
                ||| forall|i: int| 0 <= i < text.len() ==> is_space(#[trigger] text[i])
                ||| encode_utf8(text).len() > 65536
                ||| text == s.last
            };
            &&& !reasons ==> request == (Request::Store { text }) && next.last == text
            &&& reasons ==> request == Request::Wait && next.last == s.last
            &&& next.atoms == s.atoms
            &&& next.phase == Phase::Idle
        }),
{
}

/// The same of text by its bytes: where some bytes encode a text with more than
/// white space in it that differs from the one stored last, and are no more than
/// 65536, that text is stored and remembered.
pub proof fn every_text_within_the_bound_is_stored(s: State, value: Seq<u8>, i: int)
    requires
        valid_utf8(value),
        value.len() <= 65536,
        0 <= i < decode_utf8(value).len(),
        !is_space(decode_utf8(value)[i]),
        decode_utf8(value) != s.last,
    ensures
        s.offered(decode_utf8(value)).1 == (Request::Store { text: decode_utf8(value) }),
        s.offered(decode_utf8(value)).0.last == decode_utf8(value),
{
    vstd::utf8::decode_utf8_encode_utf8(value);
}

/// A new selection of the mouse is first waited for; the text of any other is
/// asked for at once.
pub proof fn a_new_owner_is_answered(s: State, selection: u32)
    ensures
        ({
            let (next, request) = s.after(Event::Owner { selection });
            &&& selection == 1 ==> request == Request::AskPointer && next.phase == (
            Phase::Polling { selection, asked: 0 })
            &&& selection != 1 ==> request == (Request::Convert {
                selection,
                target: s.atoms.utf8,
                property: s.atoms.dest,
            }) && next.phase == Phase::Idle
            &&& next.atoms == s.atoms
            &&& next.last == s.last
        }),
{
}

/// The release of the buttons, however late it comes, asks for the text of the
/// selection; a button that is held brings a pause of a tenth of a second.
pub proof fn a_release_asks_for_the_selection(
    s: State,
    selection: u32,
    asked: u32,
    mask: Option<u16>,
)
    requires
        s.phase == (Phase::Polling { selection, asked }),
        asked < 300,
    ensures
        ({
            let (next, request) = s.after(Event::Pointer { mask });
            let held = mask is Some && ((mask->0 & 0x100) != 0 || (mask->0 & 0x200) != 0 || (mask->0
                & 0x400) != 0);
            &&& !held ==> request == (Request::Convert {
                selection,
                target: s.atoms.utf8,
                property: s.atoms.dest,
            }) && next.phase == Phase::Idle
            &&& held ==> request == (Request::Pause { millis: 100 }) && next.phase == (
            Phase::Pausing { selection, asked: (asked + 1) as u32 })
            &&& next.atoms == s.atoms
            &&& next.last == s.last
        }),
{
    a_button_is_held_by_its_bit(mask);
}

/// After a pause the pointer is asked for again, up to three hundred times; then
/// the text of the selection is asked for as it is.
pub proof fn a_pause_leads_to_the_next_question(s: State, selection: u32, asked: u32)
    requires
        s.phase == (Phase::Pausing { selection, asked }),
        asked <= 300,
    ensures
        ({
            let (next, request) = s.after(Event::Paused);
            &&& asked < 300 ==> request == Request::AskPointer && next.phase == (Phase::Polling {
                selection,
                asked,
            })
            &&& asked == 300 ==> request == (Request::Convert {
                selection,
                target: s.atoms.utf8,
                property: s.atoms.dest,
            }) && next.phase == Phase::Idle
            &&& next.atoms == s.atoms
            &&& next.last == s.last
        }),
{
}

/// A converted selection is fetched from where it was asked to go, with one unit
/// more than the bound holds; there is nothing to fetch of one that has no text.
pub proof fn a_converted_selection_is_fetched(s: State, property: u32)
    ensures
        ({
            let (next, request) = s.after(Event::Converted { property });
            &&& property != 0 ==> request == (Request::Fetch {
                property: s.atoms.dest,
                length: 16385,
            }) && next.phase == Phase::Reading
            &&& property == 0 ==> request == Request::Wait && next.phase == Phase::Idle
            &&& next.atoms == s.atoms
            &&& next.last == s.last
        }),
{
}

/// The recorder stops when the display is gone, and only then.
pub proof fn only_the_end_of_the_display_stops_it(s: State, ev: Event)
    requires
        s.accepts(ev),
    ensures
        s.after(ev).1 is Stop <==> ev is Gone,
        ev is NoProperty || ev is Other ==> s.after(ev) == (
            State { atoms: s.atoms, last: s.last, phase: Phase::Idle },
            Request::Wait,
        ),
{
}

/// What can come is what was asked for: any event of the display while the
/// recorder waits, the pointer once it has been asked for, the end of a pause
/// once there is one, and the property once it is to be fetched.
pub proof fn what_was_asked_for_can_come(s: State, ev: Event, next: Event)
    requires
        s.wf(),
        s.accepts(ev),
    ensures
        s.after(ev).0.accepts(next) <==> match s.after(ev).1 {
            Request::AskPointer => next is Pointer,
            Request::Pause { .. } => next is Paused,
            Request::Fetch { .. } => next is Property || next is NoProperty,
            _ => next is Owner || next is Converted || next is Other || next is Gone,
        },
{
}

/// A recorder that has not been told anything waits for the display.
pub proof fn a_new_recorder_waits_for_the_display(s: State, ev: Event)
    requires
        s.phase is Idle,
    ensures
        s.wf(),
        s.accepts(ev) <==> ev is Owner || ev is Converted || ev is Other || ev is Gone,
{
}

/// The atoms are the ones that the recorder started with.
pub proof fn the_atoms_stay(s: State, evs: Seq<Event>)
    ensures
        state_after(s, evs).atoms == s.atoms,
    decreases evs.len(),
{
    if evs.len() > 0 {
        the_atoms_stay(s, evs.drop_last());
    }
}

/// A wait for the mouse goes on, for the same selection, until the text of that
/// selection is asked for: it is left in no other way.
pub proof fn a_wait_ends_only_by_asking(s: State, selection: u32, ev: Event)
    requires
        s.wf(),
        s.accepts(ev),
        s.phase matches Phase::Polling { selection: waited, .. } && waited == selection || (
        s.phase matches Phase::Pausing { selection: waited, .. } && waited == selection),
    ensures
        ({
            let (next, request) = s.after(ev);
            ||| request == (Request::Convert {
                selection,
                target: s.atoms.utf8,
                property: s.atoms.dest,
            })
            ||| request == Request::AskPointer && (next.phase matches Phase::Polling {
                selection: waited,
                ..
            } && waited == selection)
            ||| request == (Request::Pause { millis: 100 }) && (next.phase matches Phase::Pausing {
                selection: waited,
                ..
            } && waited == selection)
        }),
{
}

/// After `n` events the recorder waits for the mouse, over this selection.
pub open spec fn waits_for(s: State, evs: Seq<Event>, n: int, selection: u32) -> bool {
    match state_after(s, evs.take(n)).phase {
        Phase::Polling { selection: waited, .. } => waited == selection,
        Phase::Pausing { selection: waited, .. } => waited == selection,
        _ => false,
    }
}

/// Every new selection is asked for: from the event that announces it, the
/// recorder does nothing but wait for the mouse until it asks for the text of
/// that selection, and it asks for it after no more than six hundred events.
pub proof fn every_new_selection_is_asked_for(s: State, evs: Seq<Event>, i: int, selection: u32)
    requires
        s.wf(),
        can_happen(s, evs),
        0 <= i < evs.len(),
        evs[i] == (Event::Owner { selection }),
    ensures
        (exists|j: int|
            i <= j < evs.len() && j - i <= 600 && #[trigger] request_at(s, evs, j) == (
            Request::Convert { selection, target: s.atoms.utf8, property: s.atoms.dest })) || (
        waits_for(s, evs, evs.len() as int, selection) && evs.len() - i <= 600),
{
    lemma_asked_for_or_waiting(s, evs, i, evs.len() as int, selection);
}

proof fn lemma_asked_for_or_waiting(s: State, evs: Seq<Event>, i: int, n: int, selection: u32)
    requires
        s.wf(),
        can_happen(s, evs),
        0 <= i < n <= evs.len(),
        evs[i] == (Event::Owner { selection }),
    ensures
        (exists|j: int|
            i <= j < n && j - i <= 600 && #[trigger] request_at(s, evs, j) == (Request::Convert {
                selection,
                target: s.atoms.utf8,
                property: s.atoms.dest,
            })) || (waits_for(s, evs, n, selection) && n - i + steps_left(
            state_after(s, evs.take(n)).phase,
        ) <= 601 && 0 < steps_left(state_after(s, evs.take(n)).phase)),
    decreases n,
{
    let before = state_after(s, evs.take(n - 1));
    let ev = evs[n - 1];
    assert(evs.take(n).drop_last() =~= evs.take(n - 1));
    lemma_prefix_can_happen(s, evs, n - 1);
    every_state_is_wf(s, evs.take(n - 1));
    the_atoms_stay(s, evs.take(n - 1));
    assert(before.accepts(ev));
    let goal = Request::Convert { selection, target: s.atoms.utf8, property: s.atoms.dest };
    if n == i + 1 {
        assert(request_at(s, evs, i) == before.after(ev).1);
    } else {
        lemma_asked_for_or_waiting(s, evs, i, n - 1, selection);
        if exists|j: int|
            i <= j < n - 1 && j - i <= 600 && #[trigger] request_at(s, evs, j) == goal {
            let j = choose|j: int|
                i <= j < n - 1 && j - i <= 600 && #[trigger] request_at(s, evs, j) == goal;
            assert(i <= j < n);
        } else {
            a_wait_ends_only_by_asking(before, selection, ev);
            assert(request_at(s, evs, n - 1) == before.after(ev).1);
            waiting_for_the_mouse_ends(before, ev);
        }
    }
}

/// The view of an action and of a recorder leaves nothing of them out.
pub proof fn views_are_faithful(a: Action, r: Recorder)
    ensures
        match a {
            Action::Wait => a@ == Request::Wait,
            Action::AskPointer => a@ == Request::AskPointer,
            Action::Pause { millis } => a@ == (Request::Pause { millis }),
            Action::Convert { selection, target, property } => a@ == (Request::Convert {
                selection,
                target,
                property,
            }),
            Action::Fetch { property, length } => a@ == (Request::Fetch { property, length }),
            Action::Store { text } => a@ == (Request::Store { text: text@ }),
            Action::Stop => a@ == Request::Stop,
        },
        r@.atoms == r.atoms,
        r@.last == r.last@,
        r@.phase == r.phase,
{
}

} // verus!
