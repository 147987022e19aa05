//! Drag events, and the source that turns raw touch and mouse input into them.
//!
//! Every contact, from press to release, is one drag sequence. The source
//! numbers the sequences with a counter that only grows, so no number is ever
//! handed out twice, whether to a touch or to the mouse.

use crate::geometry::Point;
use vstd::prelude::*;

verus! {

/// The stage of a drag sequence that a drag event reports.
#[derive(Clone, Copy, Debug, PartialEq, Eq, Structural)]
pub enum DragPhase {
    /// A contact began.
    Press,
    /// The contact moved.
    Move,
    /// The contact ended or was cancelled.
    Release,
}

/// One transition of one drag sequence.
#[derive(Clone, Copy, Debug, PartialEq, Eq, Structural)]
pub struct DragEvent {
    /// Names the drag sequence for as long as it lasts.
    pub sequence_id: u64,
    /// What happened.
    pub phase: DragPhase,
    /// Where it happened, in input space.
    pub position: Point,
}

/// What the platform says of a touch contact.
#[derive(Clone, Copy, Debug, PartialEq, Eq, Structural)]
pub enum TouchPhase {
    Started,
    Moved,
    Ended,
    Canceled,
}

/// One raw touch transition, as the platform reports it.
#[derive(Clone, Copy, Debug, PartialEq, Eq, Structural)]
pub struct TouchInput {
    /// The platform's name for the finger.
    pub touch_id: u64,
    pub phase: TouchPhase,
    pub position: Point,
}

/// The state of the mouse in one tick.
#[derive(Clone, Copy, Debug, PartialEq, Eq, Structural)]
pub struct MouseInput {
    /// Whether the button that drags is held down.
    pub pressed: bool,
    pub position: Point,
}

/// A touch contact that is in progress.
#[derive(Clone, Copy, Debug, PartialEq, Eq, Structural)]
pub struct Contact {
    pub touch_id: u64,
    pub sequence_id: u64,
    pub position: Point,
}

/// A mouse drag that is in progress.
#[derive(Clone, Copy, Debug, PartialEq, Eq, Structural)]
pub struct MouseDrag {
    pub sequence_id: u64,
    pub position: Point,
}

/// What a drag event source remembers between ticks.
pub struct SourceState {
    /// The number that the next drag sequence gets.
    pub next_id: u64,
    /// The mouse drag in progress, if any.
    pub mouse: Option<MouseDrag>,
    /// The touch contacts in progress, oldest first.
    pub touches: Seq<Contact>,
}

/// Turns raw touch and mouse input into drag events.
pub struct DragEventSource {
    next_id: u64,
    mouse: Option<MouseDrag>,
    touches: Vec<Contact>,
}

/// Contact `i` is the first contact of the finger `touch_id`.
pub open spec fn is_contact_of(touches: Seq<Contact>, touch_id: u64, i: int) -> bool {
    &&& 0 <= i < touches.len()
    &&& touches[i].touch_id == touch_id
    &&& forall|j: int| 0 <= j < i ==> (#[trigger] touches[j]).touch_id != touch_id
}

/// The first contact of the finger `touch_id`, if it has one.
pub open spec fn contact_of(touches: Seq<Contact>, touch_id: u64) -> Option<int> {
    if exists|i: int| is_contact_of(touches, touch_id, i) {
        Some(choose|i: int| is_contact_of(touches, touch_id, i))
    } else {
        None
    }
}

/// The state and the drag event that follow one raw touch transition.
///
/// A finger that starts a contact gets the next sequence number and a press;
/// one that is in contact already, or that comes when the numbers have run
/// out, is ignored. A move is passed on only if the finger is in contact and
/// its position changed. The end or the cancellation of a contact releases it;
/// of an unknown finger it is ignored.
pub open spec fn touch_step(s: SourceState, input: TouchInput) -> (SourceState, Option<DragEvent>) {
    let found = contact_of(s.touches, input.touch_id);
    match input.phase {
        TouchPhase::Started => if found is Some || s.next_id == u64::MAX {
            (s, None)
        } else {
            (
                SourceState {
                    next_id: (s.next_id + 1) as u64,
                    touches: s.touches.push(
                        Contact {
                            touch_id: input.touch_id,
                            sequence_id: s.next_id,
                            position: input.position,
                        },
                    ),
                    ..s
                },
                Some(
                    DragEvent {
                        sequence_id: s.next_id,
                        phase: DragPhase::Press,
                        position: input.position,
                    },
                ),
            )
        },
        TouchPhase::Moved => match found {
            Some(i) => if s.touches[i].position == input.position {
                (s, None)
            } else {
                (
                    SourceState {
                        touches: s.touches.update(
                            i,
                            Contact { position: input.position, ..s.touches[i] },
                        ),
                        ..s
                    },
                    Some(
                        DragEvent {
                            sequence_id: s.touches[i].sequence_id,
                            phase: DragPhase::Move,
                            position: input.position,
                        },
                    ),
                )
            },
            None => (s, None),
        },
        _ => match found {
            Some(i) => (
                SourceState { touches: s.touches.remove(i), ..s },
                Some(
                    DragEvent {
                        sequence_id: s.touches[i].sequence_id,
                        phase: DragPhase::Release,
                        position: input.position,
                    },
                ),
            ),
            None => (s, None),
        },
    }
}

/// The state and the drag event that follow one look at the mouse.
///
/// A button that goes down starts a drag with the next sequence number,
/// unless the numbers have run out. While it stays down, a changed position
/// is a move. When it goes up, the drag is released.
pub open spec fn mouse_step(s: SourceState, input: MouseInput) -> (SourceState, Option<DragEvent>) {
    match s.mouse {
        None => if input.pressed && s.next_id < u64::MAX {
            (
                SourceState {
                    next_id: (s.next_id + 1) as u64,
                    mouse: Some(MouseDrag { sequence_id: s.next_id, position: input.position }),
                    ..s
                },
                Some(
                    DragEvent {
                        sequence_id: s.next_id,
                        phase: DragPhase::Press,
                        position: input.position,
                    },
                ),
            )
        } else {
            (s, None)
        },
        Some(drag) => if !input.pressed {
            (
                SourceState { mouse: None, ..s },
                Some(
                    DragEvent {
                        sequence_id: drag.sequence_id,
                        phase: DragPhase::Release,
                        position: input.position,
                    },
                ),
            )
        } else if drag.position != input.position {
            (
                SourceState {
                    mouse: Some(MouseDrag { position: input.position, ..drag }),
                    ..s
                },
                Some(
                    DragEvent {
                        sequence_id: drag.sequence_id,
                        phase: DragPhase::Move,
                        position: input.position,
                    },
                ),
            )
        } else {
            (s, None)
        },
    }
}

/// The state after a run of raw touch transitions, taken in order.
pub open spec fn touches_state(s: SourceState, inputs: Seq<TouchInput>) -> SourceState
    decreases inputs.len(),
{
    if inputs.len() == 0 {
        s
    } else {
        touch_step(touches_state(s, inputs.drop_last()), inputs.last()).0
    }
}

/// The drag events of a run of raw touch transitions, in order.
pub open spec fn touches_events(s: SourceState, inputs: Seq<TouchInput>) -> Seq<DragEvent>
    decreases inputs.len(),
{
    if inputs.len() == 0 {
        Seq::empty()
    } else {
        let earlier = touches_events(s, inputs.drop_last());
        match touch_step(touches_state(s, inputs.drop_last()), inputs.last()).1 {
            Some(e) => earlier.push(e),
            None => earlier,
        }
    }
}

/// The state after one tick: the touch transitions first, then the mouse.
pub open spec fn tick_state(s: SourceState, touches: Seq<TouchInput>, mouse: Option<MouseInput>)
    -> SourceState {
    let t = touches_state(s, touches);
    match mouse {
        Some(m) => mouse_step(t, m).0,
        None => t,
    }
}

/// The drag events of one tick: those of the touches, then that of the mouse.
pub open spec fn tick_events(s: SourceState, touches: Seq<TouchInput>, mouse: Option<MouseInput>)
    -> Seq<DragEvent> {
    let events = touches_events(s, touches);
    match mouse {
        Some(m) => match mouse_step(touches_state(s, touches), m).1 {
            Some(e) => events.push(e),
            None => events,
        },
        None => events,
    }
}

/// Every drag in progress has a number of its own, handed out before the
/// next one, and every finger has at most one contact.
pub open spec fn source_wf(s: SourceState) -> bool {
    &&& forall|i: int| 0 <= i < s.touches.len() ==> (#[trigger] s.touches[i]).sequence_id < s.next_id
    &&& forall|i: int, j: int|
        0 <= i < j < s.touches.len() ==> {
            &&& (#[trigger] s.touches[i]).touch_id != (#[trigger] s.touches[j]).touch_id
            &&& s.touches[i].sequence_id != s.touches[j].sequence_id
        }
    &&& s.mouse matches Some(drag) ==> {
        &&& drag.sequence_id < s.next_id
        &&& forall|i: int|
            0 <= i < s.touches.len() ==> (#[trigger] s.touches[i]).sequence_id != drag.sequence_id
    }
}

/// The drag sequence `sequence_id` is in progress.
pub open spec fn in_progress(s: SourceState, sequence_id: u64) -> bool {
    ||| s.mouse matches Some(drag) && drag.sequence_id == sequence_id
    ||| exists|i: int| 0 <= i < s.touches.len() && (#[trigger] s.touches[i]).sequence_id == sequence_id
}

/// The first contact of a finger is the only index that `is_contact_of` admits.
pub proof fn lemma_contact_is(touches: Seq<Contact>, touch_id: u64, i: int)
    requires
        is_contact_of(touches, touch_id, i),
    ensures
        contact_of(touches, touch_id) == Some(i),
{
    let c = choose|c: int| is_contact_of(touches, touch_id, c);
    if c < i {
        assert(touches[c].touch_id != touch_id);
    } else if i < c {
        assert(touches[i].touch_id != touch_id);
    }
}

/// A finger that no contact names has no contact.
pub proof fn lemma_no_contact(touches: Seq<Contact>, touch_id: u64)
    requires
        forall|j: int| 0 <= j < touches.len() ==> (#[trigger] touches[j]).touch_id != touch_id,
    ensures
        contact_of(touches, touch_id) is None,
{
    if exists|i: int| is_contact_of(touches, touch_id, i) {
        let c = choose|c: int| is_contact_of(touches, touch_id, c);
        assert(touches[c].touch_id != touch_id);
    }
}

/// Whatever `contact_of` names is a first contact.
pub proof fn lemma_contact_found(touches: Seq<Contact>, touch_id: u64)
    ensures
        contact_of(touches, touch_id) matches Some(i) ==> is_contact_of(touches, touch_id, i),
{
}

impl View for DragEventSource {
    type V = SourceState;

    closed spec fn view(&self) -> SourceState {
        SourceState { next_id: self.next_id, mouse: self.mouse, touches: self.touches@ }
    }
}

impl DragEventSource {
    /// The invariant of the source.
    pub open spec fn wf(&self) -> bool {
        source_wf(self@)
    }

    /// A source with no drag in progress, whose first sequence gets number 0.
    pub fn new() -> (source: Self)
        ensures
            source@ == (SourceState { next_id: 0, mouse: None, touches: Seq::empty() }),
            source.wf(),
    {
        DragEventSource { next_id: 0, mouse: None, touches: Vec::new() }
    }

    /// A source with no drag in progress, whose first sequence gets number
    /// `first_id`.
    pub fn starting_at(first_id: u64) -> (source: Self)
        ensures
            source@ == (SourceState { next_id: first_id, mouse: None, touches: Seq::empty() }),
            source.wf(),
    {
        DragEventSource { next_id: first_id, mouse: None, touches: Vec::new() }
    }

    /// The number that the next drag sequence gets.
    pub fn next_sequence_id(&self) -> (id: u64)
        ensures
            id == self@.next_id,
    {
        self.next_id
    }

    /// How many touch contacts are in progress.
    pub fn touch_drags(&self) -> (n: usize)
        ensures
            n == self@.touches.len(),
    {
        self.touches.len()
    }

    /// The sequence number of the mouse drag in progress, if there is one.
    pub fn mouse_drag(&self) -> (id: Option<u64>)
        ensures
            id == match self@.mouse {
                Some(drag) => Some(drag.sequence_id),
                None => None,
            },
    {
        match self.mouse {
            Some(drag) => Some(drag.sequence_id),
            None => None,
        }
    }

    fn find_contact(&self, touch_id: u64) -> (found: Option<usize>)
        ensures
            match found {
                Some(i) => contact_of(self@.touches, touch_id) == Some(i as int) && i
                    < self.touches.len(),
                None => contact_of(self@.touches, touch_id) is None,
            },
    {
        let mut i: usize = 0;
        while i < self.touches.len()
            invariant
                i <= self.touches.len(),
                forall|j: int| 0 <= j < i ==> (#[trigger] self.touches@[j]).touch_id != touch_id,
            decreases self.touches.len() - i,
        {
            if self.touches[i].touch_id == touch_id {
                proof {
                    lemma_contact_is(self.touches@, touch_id, i as int);
                }
                return Some(i);
            }
            i += 1;
        }
        proof {
            lemma_no_contact(self.touches@, touch_id);
        }
        None
    }

    /// Takes one raw touch transition and returns the drag event that it
    /// amounts to, if any.
    pub fn touch(&mut self, input: TouchInput) -> (event: Option<DragEvent>)
        requires
            old(self).wf(),
        ensures
            final(self)@ == touch_step(old(self)@, input).0,
            event == touch_step(old(self)@, input).1,
            final(self).wf(),
    {
        proof {
            lemma_touch_step_keeps_wf(self@, input);
        }
        let found = self.find_contact(input.touch_id);
        match input.phase {
            TouchPhase::Started => {
                if found.is_some() || self.next_id == u64::MAX {
                    None
                } else {
                    let sequence_id = self.next_id;
                    self.next_id = sequence_id + 1;
                    self.touches.push(
                        Contact { touch_id: input.touch_id, sequence_id, position: input.position },
                    );
                    Some(DragEvent { sequence_id, phase: DragPhase::Press, position: input.position })
                }
            },
            TouchPhase::Moved => {
                match found {
                    None => None,
                    Some(i) => {
                        if self.touches[i].position == input.position {
                            None
                        } else {
                            let sequence_id = self.touches[i].sequence_id;
                            self.touches[i].position = input.position;
                            assert(self.touches@ =~= old(self).touches@.update(
                                i as int,
                                Contact { position: input.position, ..old(self).touches@[i as int] },
                            ));
                            Some(
                                DragEvent {
                                    sequence_id,
                                    phase: DragPhase::Move,
                                    position: input.position,
                                },
                            )
                        }
                    },
                }
            },
            _ => {
                match found {
                    None => None,
                    Some(i) => {
                        let gone = self.touches.remove(i);
                        Some(
                            DragEvent {
                                sequence_id: gone.sequence_id,
                                phase: DragPhase::Release,
                                position: input.position,
                            },
                        )
                    },
                }
            },
        }
    }

    /// Takes one look at the mouse and returns the drag event that it amounts
    /// to, if any.
    pub fn mouse(&mut self, input: MouseInput) -> (event: Option<DragEvent>)
        requires
            old(self).wf(),
        ensures
            final(self)@ == mouse_step(old(self)@, input).0,
            event == mouse_step(old(self)@, input).1,
            final(self).wf(),
    {
        proof {
            lemma_mouse_step_keeps_wf(self@, input);
        }
        match self.mouse {
            None => {
                if input.pressed && self.next_id < u64::MAX {
                    let sequence_id = self.next_id;
                    self.next_id = sequence_id + 1;
                    self.mouse = Some(MouseDrag { sequence_id, position: input.position });
                    Some(DragEvent { sequence_id, phase: DragPhase::Press, position: input.position })
                } else {
                    None
                }
            },
            Some(drag) => {
                if !input.pressed {
                    self.mouse = None;
                    Some(
                        DragEvent {
                            sequence_id: drag.sequence_id,
                            phase: DragPhase::Release,
                            position: input.position,
                        },
                    )
                } else if drag.position != input.position {
                    self.mouse = Some(
                        MouseDrag { sequence_id: drag.sequence_id, position: input.position },
                    );
                    Some(
                        DragEvent {
                            sequence_id: drag.sequence_id,
                            phase: DragPhase::Move,
                            position: input.position,
                        },
                    )
                } else {
                    None
                }
            },
        }
    }

    /// Takes the raw input of one tick, the touch transitions in the order in
    /// which they came and then the mouse, and returns the drag events that
    /// they amount to, in that order.
    pub fn tick(&mut self, touches: &Vec<TouchInput>, mouse: Option<MouseInput>) -> (events: Vec<
        DragEvent,
    >)
        requires
            old(self).wf(),
        ensures
            final(self)@ == tick_state(old(self)@, touches@, mouse),
            events@ == tick_events(old(self)@, touches@, mouse),
            final(self).wf(),
    {
        let mut events: Vec<DragEvent> = Vec::new();
        let mut k: usize = 0;
        while k < touches.len()
            invariant
                k <= touches.len(),
                self.wf(),
                self@ == touches_state(old(self)@, touches@.take(k as int)),
                events@ == touches_events(old(self)@, touches@.take(k as int)),
            decreases touches.len() - k,
        {
            proof {
                assert(touches@.take(k as int + 1).drop_last() =~= touches@.take(k as int));
            }
            match self.touch(touches[k]) {
                Some(e) => {
                    events.push(e);
                },
                None => {},
            }
            k += 1;
        }
        proof {
            assert(touches@.take(k as int) =~= touches@);
        }
        match mouse {
            Some(m) => {
                match self.mouse(m) {
                    Some(e) => {
                        events.push(e);
                    },
                    None => {},
                }
            },
            None => {},
        }
        events
    }
}

/// A raw touch transition keeps the invariant of the source.
pub proof fn lemma_touch_step_keeps_wf(s: SourceState, input: TouchInput)
    requires
        source_wf(s),
    ensures
        source_wf(touch_step(s, input).0),
{
    let t = touch_step(s, input).0;
    let found = contact_of(s.touches, input.touch_id);
    lemma_contact_found(s.touches, input.touch_id);
    match input.phase {
        TouchPhase::Started => {
            if found is None && s.next_id < u64::MAX {
                assert forall|j: int| 0 <= j < s.touches.len() implies (#[trigger] s.touches[j]).touch_id
                    != input.touch_id by {
                    if s.touches[j].touch_id == input.touch_id {
                        lemma_first_contact_exists(s.touches, input.touch_id, j);
                    }
                }
            }
        },
        TouchPhase::Moved => {},
        _ => {
            if let Some(i) = found {
                assert forall|a: int| 0 <= a < t.touches.len() implies (#[trigger] t.touches[a])
                    == s.touches[if a < i {
                    a
                } else {
                    a + 1
                }] by {}
            }
        },
    }
}

/// If contact `j` is of the finger, the finger has a first contact at or
/// before `j`.
pub proof fn lemma_first_contact_exists(touches: Seq<Contact>, touch_id: u64, j: int)
    requires
        0 <= j < touches.len(),
        touches[j].touch_id == touch_id,
    ensures
        contact_of(touches, touch_id) matches Some(i) && i <= j,
    decreases j,
{
    if forall|k: int| 0 <= k < j ==> (#[trigger] touches[k]).touch_id != touch_id {
        assert(is_contact_of(touches, touch_id, j));
        lemma_contact_is(touches, touch_id, j);
    } else {
        let k = choose|k: int| 0 <= k < j && (#[trigger] touches[k]).touch_id == touch_id;
        lemma_first_contact_exists(touches, touch_id, k);
    }
}

/// A look at the mouse keeps the invariant of the source.
pub proof fn lemma_mouse_step_keeps_wf(s: SourceState, input: MouseInput)
    requires
        source_wf(s),
    ensures
        source_wf(mouse_step(s, input).0),
{
}

/// The numbers that one raw touch transition hands out and uses. The counter
/// never goes back. A press carries the number that was next, which no drag
/// in progress has, and moves the counter on by one. A move or a release
/// carries the number of a drag in progress and leaves the counter alone; a
/// release retires its number. Input that causes no event changes nothing.
pub proof fn law_touch_step_numbers(s: SourceState, input: TouchInput)
    requires
        source_wf(s),
    ensures
        ({
            let t = touch_step(s, input).0;
            let e = touch_step(s, input).1;
            &&& source_wf(t)
            &&& s.next_id <= t.next_id
            &&& e is None ==> t == s
            &&& e matches Some(ev) ==> {
                &&& ev.position == input.position
                &&& ev.phase == DragPhase::Press ==> {
                    &&& ev.sequence_id == s.next_id
                    &&& t.next_id == s.next_id + 1
                    &&& !in_progress(s, ev.sequence_id)
                    &&& in_progress(t, ev.sequence_id)
                }
                &&& ev.phase != DragPhase::Press ==> {
                    &&& t.next_id == s.next_id
                    &&& in_progress(s, ev.sequence_id)
                }
                &&& ev.phase == DragPhase::Move ==> in_progress(t, ev.sequence_id)
                &&& ev.phase == DragPhase::Release ==> !in_progress(t, ev.sequence_id)
            }
        }),
{
    lemma_touch_step_keeps_wf(s, input);
    lemma_contact_found(s.touches, input.touch_id);
    let t = touch_step(s, input).0;
    let found = contact_of(s.touches, input.touch_id);
    match input.phase {
        TouchPhase::Started => {
            if found is None && s.next_id < u64::MAX {
                assert(t.touches[s.touches.len() as int].sequence_id == s.next_id);
            }
        },
        TouchPhase::Moved => {
            if let Some(i) = found {
                if s.touches[i].position != input.position {
                    assert(t.touches[i].sequence_id == s.touches[i].sequence_id);
                }
            }
        },
        _ => {
            if let Some(i) = found {
                let gone = s.touches[i].sequence_id;
                assert(s.touches[i].sequence_id == gone);
                assert forall|a: int| 0 <= a < t.touches.len() implies (#[trigger] t.touches[a]).sequence_id
                    != gone by {
                    let b = if a < i {
                        a
                    } else {
                        a + 1
                    };
                    assert(t.touches[a] == s.touches[b]);
                }
            }
        },
    }
}

/// The numbers that one look at the mouse hands out and uses: as for a raw
/// touch transition.
pub proof fn law_mouse_step_numbers(s: SourceState, input: MouseInput)
    requires
        source_wf(s),
    ensures
        ({
            let t = mouse_step(s, input).0;
            let e = mouse_step(s, input).1;
            &&& source_wf(t)
            &&& s.next_id <= t.next_id
            &&& e is None ==> t == s
            &&& e matches Some(ev) ==> {
                &&& ev.position == input.position
                &&& ev.phase == DragPhase::Press ==> {
                    &&& ev.sequence_id == s.next_id
                    &&& t.next_id == s.next_id + 1
                    &&& !in_progress(s, ev.sequence_id)
                    &&& in_progress(t, ev.sequence_id)
                }
                &&& ev.phase != DragPhase::Press ==> {
                    &&& t.next_id == s.next_id
                    &&& in_progress(s, ev.sequence_id)
                }
                &&& ev.phase == DragPhase::Move ==> in_progress(t, ev.sequence_id)
                &&& ev.phase == DragPhase::Release ==> !in_progress(t, ev.sequence_id)
            }
        }),
{
}

/// Over a run of raw touch transitions the counter never goes back, every
/// press carries a number between the counter before and the counter after,
/// and later presses carry larger numbers: no number is handed out twice.
pub proof fn law_touches_numbers(s: SourceState, inputs: Seq<TouchInput>)
    requires
        source_wf(s),
    ensures
        ({
            let t = touches_state(s, inputs);
            let events = touches_events(s, inputs);
            &&& source_wf(t)
            &&& s.next_id <= t.next_id
            &&& events.len() <= inputs.len()
            &&& forall|k: int|
                0 <= k < events.len() ==> (#[trigger] events[k]).sequence_id < t.next_id
            &&& forall|k: int|
                0 <= k < events.len() && (#[trigger] events[k]).phase == DragPhase::Press
                    ==> s.next_id <= events[k].sequence_id
            &&& forall|k: int, l: int|
                0 <= k < l < events.len() && (#[trigger] events[k]).phase == DragPhase::Press && (
                #[trigger] events[l]).phase == DragPhase::Press ==> events[k].sequence_id
                    < events[l].sequence_id
        }),
    decreases inputs.len(),
{
    if inputs.len() > 0 {
        law_touches_numbers(s, inputs.drop_last());
        let mid = touches_state(s, inputs.drop_last());
        law_touch_step_numbers(mid, inputs.last());
        if let Some(ev) = touch_step(mid, inputs.last()).1 {
            if ev.phase != DragPhase::Press {
                lemma_in_progress_below_counter(mid, ev.sequence_id);
            }
        }
    }
}

/// The number of a drag in progress was handed out before the next one.
pub proof fn lemma_in_progress_below_counter(s: SourceState, sequence_id: u64)
    requires
        source_wf(s),
        in_progress(s, sequence_id),
    ensures
        sequence_id < s.next_id,
{
}

/// Over one tick the counter never goes back, every press carries a number
/// between the counter before and the counter after, and later presses carry
/// larger numbers: no number is handed out twice, whether to a touch or to
/// the mouse.
pub proof fn law_tick_numbers(s: SourceState, touches: Seq<TouchInput>, mouse: Option<MouseInput>)
    requires
        source_wf(s),
    ensures
        ({
            let t = tick_state(s, touches, mouse);
            let events = tick_events(s, touches, mouse);
            &&& source_wf(t)
            &&& s.next_id <= t.next_id
            &&& forall|k: int|
                0 <= k < events.len() ==> (#[trigger] events[k]).sequence_id < t.next_id
            &&& forall|k: int|
                0 <= k < events.len() && (#[trigger] events[k]).phase == DragPhase::Press
                    ==> s.next_id <= events[k].sequence_id
            &&& forall|k: int, l: int|
                0 <= k < l < events.len() && (#[trigger] events[k]).phase == DragPhase::Press && (
                #[trigger] events[l]).phase == DragPhase::Press ==> events[k].sequence_id
                    < events[l].sequence_id
        }),
{
    law_touches_numbers(s, touches);
    if let Some(m) = mouse {
        let mid = touches_state(s, touches);
        law_mouse_step_numbers(mid, m);
        if let Some(ev) = mouse_step(mid, m).1 {
            if ev.phase != DragPhase::Press {
                lemma_in_progress_below_counter(mid, ev.sequence_id);
            }
        }
    }
}

} // verus!
