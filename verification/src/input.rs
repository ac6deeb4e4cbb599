//! The pointer and touch tracker.
//!
//! Once per frame the host hands over what the mouse and the touch screen
//! reported. The tracker keeps one gesture per contact, keyed by its id (the
//! mouse is id 0), and classifies each: a gesture that began away from the
//! container's top plane orbits the camera, any other one places a ball.

use std::collections::BTreeMap;
use vstd::prelude::*;
use vstd::std_specs::cmp::OrdSpec;
use vstd::std_specs::iter::IteratorSpec;
use crate::setup::{over_box, BoxSize};
use crate::units::{Movement, Vec2, Vec3};

verus! {

/// Id under which the mouse is tracked.
pub const MOUSE_ID: u64 = 0;

/// What a gesture did in the latest frame.
#[derive(Clone, Copy, Debug, PartialEq, Eq, Structural)]
pub enum CursorChangeType {
    Drag,
    DragStart,
    DragEnd,
    Move,
    NoChange,
}

/// Phase of one touch record.
#[derive(Clone, Copy, Debug, PartialEq, Eq, Structural)]
pub enum TouchPhase {
    Started,
    Moved,
    Ended,
    Canceled,
}

/// One touch record of the current frame. `on_box` tells whether `position`
/// lies over the container's top plane, as seen by the camera in this frame.
#[derive(Clone, Copy, Debug)]
pub struct TouchSample {
    pub id: u64,
    pub phase: TouchPhase,
    pub position: Vec2,
    pub on_box: bool,
}

/// What the mouse reported in the current frame. `on_box` tells whether the
/// cursor lies over the container's top plane; it is read only when a press
/// starts a gesture.
#[derive(Clone, Copy, Debug)]
pub struct MouseSample {
    pub just_pressed: bool,
    pub just_released: bool,
    pub pressed: bool,
    pub cursor: Option<Vec2>,
    pub on_box: bool,
}

/// The tracked state of one gesture.
#[derive(Clone, Copy, Debug, PartialEq, Eq, Structural)]
pub struct TouchState {
    pub movement: Movement,
    pub event_type: CursorChangeType,
    pub position: Vec2,
    pub is_orbit: bool,
}

/// A camera orbit by `delta`.
#[derive(Clone, Copy, Debug, PartialEq, Eq, Structural)]
pub struct OrbitUpdate {
    pub delta: Movement,
}

/// The placement gesture of a frame: what it did, and the world point under
/// it, if there is one.
#[derive(Clone, Copy, Debug, PartialEq)]
pub struct BallSpawnUpdate {
    pub cursor_type: CursorChangeType,
    pub position: Option<Vec3>,
}

/// A gesture that may place a ball, before the host has cast its position
/// onto the container.
#[derive(Clone, Copy, Debug, PartialEq, Eq, Structural)]
pub struct SpawnCandidate {
    pub id: u64,
    pub position: Vec2,
    pub cursor_type: CursorChangeType,
}

/// The exact displacement that leads from `from` to `to`.
pub open spec fn movement_between(from: Vec2, to: Vec2) -> Movement {
    Movement { x: (to.x - from.x) as i64, y: (to.y - from.y) as i64 }
}

/// No displacement.
pub open spec fn no_movement() -> Movement {
    Movement { x: 0, y: 0 }
}

/// The gesture tracked under `id`, if any.
pub open spec fn lookup(gestures: Map<u64, TouchState>, id: u64) -> Option<TouchState> {
    if gestures.contains_key(id) {
        Some(gestures[id])
    } else {
        None
    }
}

/// A gesture that starts at `position`.
pub open spec fn started(position: Vec2, on_box: bool) -> TouchState {
    TouchState {
        movement: no_movement(),
        event_type: CursorChangeType::DragStart,
        position,
        is_orbit: !on_box,
    }
}

/// The gesture `prev` after it went on to `position`, doing `event_type`.
pub open spec fn continued(
    prev: TouchState,
    event_type: CursorChangeType,
    position: Vec2,
) -> TouchState {
    TouchState {
        movement: movement_between(prev.position, position),
        event_type,
        position,
        is_orbit: prev.is_orbit,
    }
}

/// The gesture `prev` in a frame that brought no sample for it.
pub open spec fn carried(prev: TouchState) -> TouchState {
    TouchState {
        movement: no_movement(),
        event_type: CursorChangeType::NoChange,
        position: prev.position,
        is_orbit: prev.is_orbit,
    }
}

/// Whether the mouse starts a gesture in this frame: the button went down and
/// the cursor is inside the window.
pub open spec fn mouse_starts(mouse: MouseSample) -> bool {
    mouse.just_pressed && mouse.cursor is Some
}

/// What a tracked mouse did in a frame in which it starts no gesture.
pub open spec fn mouse_event(mouse: MouseSample) -> CursorChangeType {
    if mouse.cursor is None || mouse.just_released {
        CursorChangeType::DragEnd
    } else if mouse.pressed {
        CursorChangeType::Drag
    } else {
        CursorChangeType::Move
    }
}

/// The mouse's gesture after this frame, given its gesture `prev` before it.
/// A press with the cursor outside the window starts nothing; an untracked
/// mouse that starts nothing stays untracked.
pub open spec fn mouse_state(prev: Option<TouchState>, mouse: MouseSample) -> Option<TouchState> {
    if mouse_starts(mouse) {
        Some(started(mouse.cursor->0, mouse.on_box))
    } else {
        match prev {
            Some(p) => Some(
                continued(
                    p,
                    mouse_event(mouse),
                    match mouse.cursor {
                        Some(c) => c,
                        None => p.position,
                    },
                ),
            ),
            None => None,
        }
    }
}

/// The gesture that a touch record yields, given the gesture `prev` tracked
/// under its id before the frame. A record that moves or ends a gesture
/// nobody tracks yields nothing.
pub open spec fn touch_state(prev: Option<TouchState>, sample: TouchSample) -> Option<TouchState> {
    match sample.phase {
        TouchPhase::Started => Some(started(sample.position, sample.on_box)),
        TouchPhase::Moved => match prev {
            Some(p) => Some(continued(p, CursorChangeType::Drag, sample.position)),
            None => None,
        },
        TouchPhase::Ended | TouchPhase::Canceled => match prev {
            Some(p) => Some(continued(p, CursorChangeType::DragEnd, sample.position)),
            None => None,
        },
    }
}

/// `fresh` after one more touch record. `old` is the map before the frame.
pub open spec fn with_touch(
    old: Map<u64, TouchState>,
    fresh: Map<u64, TouchState>,
    sample: TouchSample,
) -> Map<u64, TouchState> {
    match touch_state(lookup(old, sample.id), sample) {
        Some(state) => fresh.insert(sample.id, state),
        None => fresh,
    }
}

/// `fresh` after the touch records `samples`, taken in order: a later record
/// replaces what an earlier one of the same id yielded.
pub open spec fn with_touches(
    old: Map<u64, TouchState>,
    fresh: Map<u64, TouchState>,
    samples: Seq<TouchSample>,
) -> Map<u64, TouchState>
    decreases samples.len(),
{
    if samples.len() == 0 {
        fresh
    } else {
        with_touch(old, with_touches(old, fresh, samples.drop_last()), samples.last())
    }
}

/// The gestures that the mouse's sample yields: its own, if it has one.
pub open spec fn mouse_gestures(old: Map<u64, TouchState>, mouse: MouseSample) -> Map<
    u64,
    TouchState,
> {
    match mouse_state(lookup(old, MOUSE_ID), mouse) {
        Some(state) => Map::<u64, TouchState>::empty().insert(MOUSE_ID, state),
        None => Map::<u64, TouchState>::empty(),
    }
}

/// The gestures that the samples of one frame yield.
pub open spec fn sampled(
    old: Map<u64, TouchState>,
    mouse: MouseSample,
    samples: Seq<TouchSample>,
) -> Map<u64, TouchState> {
    with_touches(old, mouse_gestures(old, mouse), samples)
}

/// Whether a gesture has ended.
pub open spec fn is_terminal(state: TouchState) -> bool {
    state.event_type == CursorChangeType::DragEnd
}

/// `fresh`, and every gesture of `old` that has not ended and that `fresh`
/// lacks, carried over unchanged.
pub open spec fn carry_forward(
    old: Map<u64, TouchState>,
    fresh: Map<u64, TouchState>,
) -> Map<u64, TouchState> {
    Map::new(
        |id: u64| fresh.contains_key(id) || (old.contains_key(id) && !is_terminal(old[id])),
        |id: u64|
            if fresh.contains_key(id) {
                fresh[id]
            } else {
                carried(old[id])
            },
    )
}

/// The tracked gestures after a frame.
pub open spec fn next_frame(
    old: Map<u64, TouchState>,
    mouse: MouseSample,
    samples: Seq<TouchSample>,
) -> Map<u64, TouchState> {
    carry_forward(old, sampled(old, mouse, samples))
}

/// The ids of the move records that found no gesture to move, in order.
pub open spec fn unmatched_moves(old: Map<u64, TouchState>, samples: Seq<TouchSample>) -> Seq<u64>
    decreases samples.len(),
{
    if samples.len() == 0 {
        Seq::empty()
    } else {
        let rest = unmatched_moves(old, samples.drop_last());
        let last = samples.last();
        if last.phase == TouchPhase::Moved && !old.contains_key(last.id) {
            rest.push(last.id)
        } else {
            rest
        }
    }
}

/// The keys of `gestures` that are below `bound`, in ascending order.
pub open spec fn keys_below(gestures: Map<u64, TouchState>, bound: nat) -> Seq<u64>
    decreases bound,
{
    if bound == 0 {
        Seq::empty()
    } else {
        let rest = keys_below(gestures, (bound - 1) as nat);
        let key = (bound - 1) as u64;
        if gestures.contains_key(key) {
            rest.push(key)
        } else {
            rest
        }
    }
}

/// The ids of the tracked gestures, in ascending order.
pub open spec fn ordered_ids(gestures: Map<u64, TouchState>) -> Seq<u64> {
    keys_below(gestures, 0x1_0000_0000_0000_0000)
}

/// The tracked gestures with their ids, in ascending order of id.
pub open spec fn ordered(gestures: Map<u64, TouchState>) -> Seq<(u64, TouchState)> {
    ordered_ids(gestures).map_values(|id: u64| (id, gestures[id]))
}

/// Whether `ids` ascends strictly.
pub open spec fn ascending(ids: Seq<u64>) -> bool {
    forall|i: int, j: int| 0 <= i < j < ids.len() ==> ids[i] < ids[j]
}

/// `keys_below` lists exactly the keys under the bound, in ascending order.
pub proof fn lemma_keys_below(gestures: Map<u64, TouchState>, bound: nat)
    requires
        bound <= 0x1_0000_0000_0000_0000,
    ensures
        ascending(keys_below(gestures, bound)),
        forall|i: int|
            0 <= i < keys_below(gestures, bound).len() ==> {
                &&& gestures.contains_key(#[trigger] keys_below(gestures, bound)[i])
                &&& keys_below(gestures, bound)[i] < bound
            },
        forall|id: u64|
            gestures.contains_key(id) && id < bound ==> keys_below(gestures, bound).contains(id),
    decreases bound,
{
    if bound > 0 {
        let rest = keys_below(gestures, (bound - 1) as nat);
        let key = (bound - 1) as u64;
        lemma_keys_below(gestures, (bound - 1) as nat);
        if gestures.contains_key(key) {
            let all = rest.push(key);
            assert forall|id: u64| gestures.contains_key(id) && id < bound implies all.contains(
                id,
            ) by {
                if id == key {
                    assert(all[rest.len() as int] == key);
                } else {
                    assert(rest.contains(id));
                    let i = choose|i: int| 0 <= i < rest.len() && rest[i] == id;
                    assert(all[i] == id);
                }
            }
        }
    }
}

/// Two strictly ascending sequences with the same members are equal.
pub proof fn lemma_ascending_unique(a: Seq<u64>, b: Seq<u64>)
    requires
        ascending(a),
        ascending(b),
        forall|id: u64| a.contains(id) <==> b.contains(id),
    ensures
        a == b,
    decreases a.len(),
{
    if a.len() == 0 {
        if b.len() > 0 {
            assert(b.contains(b[0]));
        }
        assert(a =~= b);
    } else {
        let top = a.last();
        assert(a.contains(top));
        assert(b.contains(top));
        let at = choose|i: int| 0 <= i < b.len() && b[i] == top;
        assert(b.contains(b.last()));
        assert(a.contains(b.last()));
        let back = choose|i: int| 0 <= i < a.len() && a[i] == b.last();
        assert(b.last() == top);
        let a0 = a.drop_last();
        let b0 = b.drop_last();
        assert forall|id: u64| a0.contains(id) <==> b0.contains(id) by {
            if a0.contains(id) {
                let i = choose|i: int| 0 <= i < a0.len() && a0[i] == id;
                assert(a[i] == id);
                assert(a.contains(id));
                let j = choose|j: int| 0 <= j < b.len() && b[j] == id;
                assert(j < b.len() - 1);
                assert(b0[j] == id);
            }
            if b0.contains(id) {
                let i = choose|i: int| 0 <= i < b0.len() && b0[i] == id;
                assert(b[i] == id);
                assert(b.contains(id));
                let j = choose|j: int| 0 <= j < a.len() && a[j] == id;
                assert(j < a.len() - 1);
                assert(a0[j] == id);
            }
        }
        lemma_ascending_unique(a0, b0);
        assert(a =~= a0.push(top));
        assert(b =~= b0.push(top));
    }
}

/// `ordered` lists every gesture once, under its id, in ascending order of id.
pub proof fn lemma_ordered(gestures: Map<u64, TouchState>)
    ensures
        ordered(gestures).len() == ordered_ids(gestures).len(),
        ascending(ordered_ids(gestures)),
        forall|i: int|
            0 <= i < ordered(gestures).len() ==> {
                &&& (#[trigger] ordered(gestures)[i]).0 == ordered_ids(gestures)[i]
                &&& gestures.contains_key(ordered(gestures)[i].0)
                &&& ordered(gestures)[i].1 == gestures[ordered(gestures)[i].0]
            },
        forall|i: int, j: int|
            0 <= i < j < ordered(gestures).len() ==> ordered(gestures)[i].0 < ordered(gestures)[j].0,
        forall|id: u64|
            gestures.contains_key(id) ==> exists|i: int|
                0 <= i < ordered(gestures).len() && (#[trigger] ordered(gestures)[i]).0 == id,
{
    let ids = ordered_ids(gestures);
    lemma_keys_below(gestures, 0x1_0000_0000_0000_0000);
    assert forall|id: u64| gestures.contains_key(id) implies exists|i: int|
        0 <= i < ordered(gestures).len() && (#[trigger] ordered(gestures)[i]).0 == id by {
        assert(ids.contains(id));
        let i = choose|i: int| 0 <= i < ids.len() && ids[i] == id;
        assert(ordered(gestures)[i].0 == id);
    }
}

/// Whether one of the first `upto` entries is a gesture under `id` that has
/// not ended.
spec fn live_among(entries: Seq<(u64, TouchState)>, upto: int, id: u64) -> bool {
    exists|j: int| 0 <= j < upto && (#[trigger] entries[j]).0 == id && !is_terminal(entries[j].1)
}

/// `live_among` over one more entry.
proof fn lemma_live_among_step(entries: Seq<(u64, TouchState)>, upto: int, id: u64)
    requires
        0 <= upto < entries.len(),
    ensures
        live_among(entries, upto + 1, id) <==> live_among(entries, upto, id) || (entries[upto].0
            == id && !is_terminal(entries[upto].1)),
{
    if live_among(entries, upto + 1, id) {
        let j = choose|j: int|
            0 <= j < upto + 1 && (#[trigger] entries[j]).0 == id && !is_terminal(entries[j].1);
        if j < upto {
            assert(live_among(entries, upto, id));
        }
    }
    if live_among(entries, upto, id) {
        let j = choose|j: int|
            0 <= j < upto && (#[trigger] entries[j]).0 == id && !is_terminal(entries[j].1);
        assert(live_among(entries, upto + 1, id));
    }
    if entries[upto].0 == id && !is_terminal(entries[upto].1) {
        assert(live_among(entries, upto + 1, id));
    }
}

/// The gestures that the tracker holds, one per contact.
#[derive(Clone, Debug)]
pub struct CursorTracking {
    touches: BTreeMap<u64, TouchState>,
}

impl View for CursorTracking {
    type V = Map<u64, TouchState>;

    closed spec fn view(&self) -> Map<u64, TouchState> {
        self.touches@
    }
}

/// The displacement that leads from `from` to `to`.
fn movement(from: Vec2, to: Vec2) -> (m: Movement)
    ensures
        m == movement_between(from, to),
{
    Movement { x: to.x as i64 - from.x as i64, y: to.y as i64 - from.y as i64 }
}

/// The mouse's gesture after a frame.
fn mouse_update(prev: Option<TouchState>, mouse: &MouseSample) -> (next: Option<TouchState>)
    ensures
        next == mouse_state(prev, *mouse),
{
    if mouse.just_pressed && mouse.cursor.is_some() {
        let position: Vec2 = mouse.cursor.unwrap();
        Some(
            TouchState {
                movement: Movement { x: 0, y: 0 },
                event_type: CursorChangeType::DragStart,
                position,
                is_orbit: !mouse.on_box,
            },
        )
    } else {
        match prev {
            Some(p) => {
                let event_type = if mouse.cursor.is_none() || mouse.just_released {
                    CursorChangeType::DragEnd
                } else if mouse.pressed {
                    CursorChangeType::Drag
                } else {
                    CursorChangeType::Move
                };
                let position: Vec2 = match mouse.cursor {
                    Some(c) => c,
                    None => p.position,
                };
                Some(
                    TouchState {
                        movement: movement(p.position, position),
                        event_type,
                        position,
                        is_orbit: p.is_orbit,
                    },
                )
            },
            None => None,
        }
    }
}

/// The gesture that one touch record yields.
fn touch_update(prev: Option<TouchState>, sample: &TouchSample) -> (next: Option<TouchState>)
    ensures
        next == touch_state(prev, *sample),
{
    match sample.phase {
        TouchPhase::Started => Some(
            TouchState {
                movement: Movement { x: 0, y: 0 },
                event_type: CursorChangeType::DragStart,
                position: sample.position,
                is_orbit: !sample.on_box,
            },
        ),
        TouchPhase::Moved => match prev {
            Some(p) => Some(
                TouchState {
                    movement: movement(p.position, sample.position),
                    event_type: CursorChangeType::Drag,
                    position: sample.position,
                    is_orbit: p.is_orbit,
                },
            ),
            None => None,
        },
        TouchPhase::Ended | TouchPhase::Canceled => match prev {
            Some(p) => Some(
                TouchState {
                    movement: movement(p.position, sample.position),
                    event_type: CursorChangeType::DragEnd,
                    position: sample.position,
                    is_orbit: p.is_orbit,
                },
            ),
            None => None,
        },
    }
}

/// The gesture that `touches` holds under `id`.
fn find(touches: &BTreeMap<u64, TouchState>, id: u64) -> (found: Option<TouchState>)
    ensures
        found == lookup(touches@, id),
{
    match touches.get(&id) {
        Some(state) => Some(*state),
        None => None,
    }
}

impl CursorTracking {
    /// A tracker that follows no gesture yet.
    pub fn new() -> (tracker: Self)
        ensures
            tracker@ == Map::<u64, TouchState>::empty(),
    {
        Self { touches: BTreeMap::new() }
    }

    /// The gesture followed under `id`, if any.
    pub fn get(&self, id: u64) -> (found: Option<TouchState>)
        ensures
            found == lookup(self@, id),
    {
        find(&self.touches, id)
    }

    /// Every gesture with its id, in ascending order of id.
    pub fn gestures(&self) -> (out: Vec<(u64, TouchState)>)
        ensures
            out@ == ordered(self@),
    {
        let mut out: Vec<(u64, TouchState)> = Vec::new();
        let entries = self.touches.iter();
        let ghost s = entries.remaining();
        let ghost keys = s.map_values(|kv: (&u64, &TouchState)| *kv.0);
        proof {
            assert(vstd::std_specs::btree::increasing_seq(keys));
            assert forall|i: int, j: int| 0 <= i < j < keys.len() implies keys[i] < keys[j] by {
                vstd::std_specs::btree::axiom_increasing_seq_meaning::<u64>(keys);
                assert(keys[i].cmp_spec(&keys[j]) is Less);
            }
            assert(forall|id: u64|
                self.touches@.contains_key(id) ==> s.contains((&id, &self.touches@[id])));
        }
        for kv in it: entries
            invariant
                it.seq() == s,
                out@.len() == it.index(),
                forall|i: int| 0 <= i < out@.len() ==> #[trigger] out@[i] == (*s[i].0, *s[i].1),
        {
            out.push((*kv.0, *kv.1));
        }
        proof {
            let ids = out@.map_values(|e: (u64, TouchState)| e.0);
            assert forall|i: int, j: int| 0 <= i < j < ids.len() implies ids[i] < ids[j] by {
                assert(keys[i] < keys[j]);
            }
            lemma_keys_below(self@, 0x1_0000_0000_0000_0000);
            assert forall|id: u64| ids.contains(id) <==> ordered_ids(self@).contains(id) by {
                if ids.contains(id) {
                    let i = choose|i: int| 0 <= i < ids.len() && ids[i] == id;
                    assert(self@.contains_key(out@[i].0));
                }
                if ordered_ids(self@).contains(id) {
                    assert(s.contains((&id, &self@[id])));
                    let i = choose|i: int| 0 <= i < s.len() && s[i] == (&id, &self@[id]);
                    assert(ids[i] == id);
                }
            }
            lemma_ascending_unique(ids, ordered_ids(self@));
            assert(out@ =~= ordered(self@));
        }
        out
    }
    /// Takes in the samples of one frame. Afterwards the tracker holds what
    /// the samples yield, and carries every other gesture that has not ended.
    /// Returns the ids of the move records that found no gesture to move, for
    /// the host to report.
    pub fn get_tracked(&mut self, mouse: &MouseSample, touches: &Vec<TouchSample>) -> (unmatched:
        Vec<u64>)
        ensures
            final(self)@ == next_frame(old(self)@, *mouse, touches@),
            unmatched@ == unmatched_moves(old(self)@, touches@),
    {
        let ghost before = self@;
        let mut unmatched: Vec<u64> = Vec::new();
        let mut new_touches: BTreeMap<u64, TouchState> = BTreeMap::new();
        match mouse_update(find(&self.touches, MOUSE_ID), mouse) {
            Some(state) => {
                new_touches.insert(MOUSE_ID, state);
            },
            None => {},
        }
        let ghost from_mouse = new_touches@;
        let mut i: usize = 0;
        while i < touches.len()
            invariant
                i <= touches.len(),
                self@ == before,
                new_touches@ == with_touches(before, from_mouse, touches@.take(i as int)),
                unmatched@ == unmatched_moves(before, touches@.take(i as int)),
            decreases touches.len() - i,
        {
            let sample = &touches[i];
            proof {
                assert(touches@.take(i + 1).drop_last() == touches@.take(i as int));
                assert(touches@.take(i + 1).last() == *sample);
            }
            let prev = find(&self.touches, sample.id);
            match touch_update(prev, sample) {
                Some(state) => {
                    new_touches.insert(sample.id, state);
                },
                None => {
                    if sample.phase == TouchPhase::Moved {
                        unmatched.push(sample.id);
                    }
                },
            }
            i += 1;
        }
        proof {
            assert(touches@.take(touches.len() as int) == touches@);
        }
        let ghost fresh = new_touches@;
        let previous = self.gestures();
        proof {
            lemma_ordered(before);
        }
        let mut k: usize = 0;
        while k < previous.len()
            invariant
                k <= previous.len(),
                previous@ == ordered(before),
                forall|j: int|
                    0 <= j < previous@.len() ==> {
                        &&& before.contains_key((#[trigger] previous@[j]).0)
                        &&& previous@[j].1 == before[previous@[j].0]
                    },
                forall|id: u64|
                    #![trigger new_touches@.contains_key(id)]
                    new_touches@.contains_key(id) <==> fresh.contains_key(id) || live_among(
                        previous@,
                        k as int,
                        id,
                    ),
                forall|id: u64|
                    #![trigger new_touches@.contains_key(id)]
                    new_touches@.contains_key(id) ==> new_touches@[id] == if fresh.contains_key(
                        id,
                    ) {
                        fresh[id]
                    } else {
                        carried(before[id])
                    },
            decreases previous.len() - k,
        {
            let id: u64 = previous[k].0;
            let touch: TouchState = previous[k].1;
            let ghost held = new_touches@;
            if touch.event_type != CursorChangeType::DragEnd {
                if find(&new_touches, id).is_none() {
                    new_touches.insert(
                        id,
                        TouchState {
                            movement: Movement { x: 0, y: 0 },
                            event_type: CursorChangeType::NoChange,
                            position: touch.position,
                            is_orbit: touch.is_orbit,
                        },
                    );
                }
            }
            proof {
                assert forall|other: u64|
                    new_touches@.contains_key(other) <==> fresh.contains_key(other) || live_among(
                        previous@,
                        k + 1,
                        other,
                    ) by {
                    lemma_live_among_step(previous@, k as int, other);
                    assert(held.contains_key(other) <==> fresh.contains_key(other) || live_among(
                        previous@,
                        k as int,
                        other,
                    ));
                }
            }
            k += 1;
        }
        proof {
            assert forall|id: u64|
                new_touches@.contains_key(id) <==> #[trigger] carry_forward(
                    before,
                    fresh,
                ).contains_key(id) by {
                if before.contains_key(id) && !is_terminal(before[id]) {
                    let j = choose|j: int|
                        0 <= j < previous@.len() && (#[trigger] previous@[j]).0 == id;
                    assert(live_among(previous@, k as int, id));
                }
                if live_among(previous@, k as int, id) {
                    let j = choose|j: int|
                        0 <= j < k && (#[trigger] previous@[j]).0 == id && !is_terminal(
                            previous@[j].1,
                        );
                    assert(before.contains_key(previous@[j].0));
                }
            }
            assert(new_touches@ =~= carry_forward(before, fresh));
        }
        self.touches = new_touches;
        unmatched
    }
}

/// The camera orbit that a gesture asks for: its movement, if it is an orbit
/// gesture that is being dragged.
pub open spec fn orbit_of(state: TouchState) -> Option<OrbitUpdate> {
    if state.event_type == CursorChangeType::Drag && state.is_orbit {
        Some(OrbitUpdate { delta: state.movement })
    } else {
        None
    }
}

/// Whether a gesture may place a ball: it is no orbit gesture, or it merely
/// moves.
pub open spec fn may_place(state: TouchState) -> bool {
    !state.is_orbit || state.event_type == CursorChangeType::Move
}

/// The gesture under `id` as a candidate for placing a ball, if it may.
pub open spec fn candidate_of(id: u64, state: TouchState) -> Option<SpawnCandidate> {
    if may_place(state) {
        Some(SpawnCandidate { id, position: state.position, cursor_type: state.event_type })
    } else {
        None
    }
}

/// The orbits that `entries` ask for, in order.
pub open spec fn orbit_updates_of(entries: Seq<(u64, TouchState)>) -> Seq<OrbitUpdate> {
    entries.filter_map(|e: (u64, TouchState)| orbit_of(e.1))
}

/// The candidates among `entries`, in order.
pub open spec fn candidates_of(entries: Seq<(u64, TouchState)>) -> Seq<SpawnCandidate> {
    entries.filter_map(|e: (u64, TouchState)| candidate_of(e.0, e.1))
}

/// What one frame of input comes to.
#[derive(Debug)]
pub struct FrameGestures {
    /// The camera orbits asked for, in ascending order of gesture id.
    pub orbit_updates: Vec<OrbitUpdate>,
    /// The gestures that may place a ball, in ascending order of gesture id.
    pub candidates: Vec<SpawnCandidate>,
    /// The ids of the move records that found no gesture to move.
    pub unmatched: Vec<u64>,
}

/// Reads one frame of input into `cursor_state` and says what it comes to.
pub fn cursor_read(
    cursor_state: &mut CursorTracking,
    mouse: &MouseSample,
    touches: &Vec<TouchSample>,
) -> (frame: FrameGestures)
    ensures
        final(cursor_state)@ == next_frame(old(cursor_state)@, *mouse, touches@),
        frame.orbit_updates@ == orbit_updates_of(ordered(final(cursor_state)@)),
        frame.candidates@ == candidates_of(ordered(final(cursor_state)@)),
        frame.unmatched@ == unmatched_moves(old(cursor_state)@, touches@),
{
    let unmatched = cursor_state.get_tracked(mouse, touches);
    let entries = cursor_state.gestures();
    let mut orbit_updates: Vec<OrbitUpdate> = Vec::new();
    let mut candidates: Vec<SpawnCandidate> = Vec::new();
    let mut k: usize = 0;
    while k < entries.len()
        invariant
            k <= entries.len(),
            orbit_updates@ == orbit_updates_of(entries@.take(k as int)),
            candidates@ == candidates_of(entries@.take(k as int)),
        decreases entries.len() - k,
    {
        let id: u64 = entries[k].0;
        let change: TouchState = entries[k].1;
        proof {
            entries@.lemma_filter_map_take_succ(|e: (u64, TouchState)| orbit_of(e.1), k as int);
            entries@.lemma_filter_map_take_succ(
                |e: (u64, TouchState)| candidate_of(e.0, e.1),
                k as int,
            );
        }
        if change.event_type == CursorChangeType::Drag && change.is_orbit {
            orbit_updates.push(OrbitUpdate { delta: change.movement });
        }
        if !change.is_orbit || change.event_type == CursorChangeType::Move {
            candidates.push(
                SpawnCandidate { id, position: change.position, cursor_type: change.event_type },
            );
        }
        k += 1;
    }
    proof {
        assert(entries@.take(entries.len() as int) == entries@);
    }
    FrameGestures { orbit_updates, candidates, unmatched }
}

/// The orbit that the camera follows in a frame: the first one asked for, if
/// any was.
pub fn first_orbit(orbit_updates: &Vec<OrbitUpdate>) -> (orbit: Option<OrbitUpdate>)
    ensures
        orbit == if orbit_updates@.len() > 0 {
            Some(orbit_updates@[0])
        } else {
            None
        },
{
    if orbit_updates.len() > 0 {
        Some(orbit_updates[0])
    } else {
        None
    }
}

/// Whether the candidate at index `k` is the first whose position the host
/// could cast onto the container. `hits` holds, for each candidate in order,
/// the world point under it, if there is one; a candidate without an entry
/// in `hits` has none.
pub open spec fn is_first_hit(
    candidates: Seq<SpawnCandidate>,
    hits: Seq<Option<Vec3>>,
    k: int,
) -> bool {
    &&& 0 <= k < candidates.len()
    &&& k < hits.len()
    &&& hits[k] is Some
    &&& forall|j: int| 0 <= j < k ==> hits[j] is None
}

/// Whether any candidate has a world point under it.
pub open spec fn has_hit(candidates: Seq<SpawnCandidate>, hits: Seq<Option<Vec3>>) -> bool {
    exists|k: int| 0 <= k < candidates.len() && k < hits.len() && hits[k] is Some
}

/// The index of the first candidate with a world point under it.
pub fn first_hit(candidates: &Vec<SpawnCandidate>, hits: &Vec<Option<Vec3>>) -> (found: Option<
    usize,
>)
    ensures
        match found {
            Some(k) => is_first_hit(candidates@, hits@, k as int),
            None => !has_hit(candidates@, hits@),
        },
{
    let mut k: usize = 0;
    while k < candidates.len() && k < hits.len()
        invariant
            forall|j: int| 0 <= j < k && j < hits@.len() ==> hits@[j] is None,
        decreases candidates.len() - k,
    {
        if hits[k].is_some() {
            return Some(k);
        }
        k += 1;
    }
    None
}

/// The update that the placement takes from a frame: the first candidate
/// with a world point under it, and that point; without one, a mere move
/// with no point.
pub fn ball_spawn_update(candidates: &Vec<SpawnCandidate>, hits: &Vec<Option<Vec3>>) -> (update:
    BallSpawnUpdate)
    ensures
        forall|k: int|
            is_first_hit(candidates@, hits@, k) ==> update == (BallSpawnUpdate {
                cursor_type: candidates@[k].cursor_type,
                position: hits@[k],
            }),
        !has_hit(candidates@, hits@) ==> update == (BallSpawnUpdate {
            cursor_type: CursorChangeType::Move,
            position: None,
        }),
{
    match first_hit(candidates, hits) {
        Some(k) => {
            proof {
                assert forall|other: int| is_first_hit(candidates@, hits@, other) implies other
                    == k by {
                    if other < k {
                        assert(hits@[other] is None);
                    }
                }
            }
            BallSpawnUpdate { cursor_type: candidates[k].cursor_type, position: hits[k] }
        },
        None => BallSpawnUpdate { cursor_type: CursorChangeType::Move, position: None },
    }
}

/// The update that the placement acts on: of those that wait, the latest;
/// the ones before it are dropped.
pub fn latest_update(pending: &Vec<BallSpawnUpdate>) -> (update: Option<BallSpawnUpdate>)
    ensures
        update == if pending@.len() > 0 {
            Some(pending@[pending@.len() - 1])
        } else {
            None
        },
{
    if pending.len() > 0 {
        Some(pending[pending.len() - 1])
    } else {
        None
    }
}

/// The point of the container's top plane that a position was cast onto,
/// unless it lies outside the container's footprint. `plane_hit` is where the
/// camera's ray through the position meets the plane at the container's top,
/// if it meets it.
pub fn raycast_box_top(plane_hit: Option<Vec3>, box_size: &BoxSize) -> (point: Option<Vec3>)
    ensures
        point == match plane_hit {
            Some(p) => if over_box(p, *box_size) {
                Some(p)
            } else {
                None
            },
            None => None,
        },
{
    match plane_hit {
        Some(p) => {
            let x: i64 = p.x as i64;
            let z: i64 = p.z as i64;
            let reach_x: i64 = box_size.x as i64;
            let reach_z: i64 = box_size.z as i64;
            if x > reach_x || x < -reach_x || z > reach_z || z < -reach_z {
                None
            } else {
                Some(p)
            }
        },
        None => None,
    }
}

/// Whether the samples of a frame start a gesture under `id`.
pub open spec fn restarts(mouse: MouseSample, samples: Seq<TouchSample>, id: u64) -> bool {
    ||| id == MOUSE_ID && mouse_starts(mouse)
    ||| exists|i: int|
        0 <= i < samples.len() && (#[trigger] samples[i]).id == id && samples[i].phase
            == TouchPhase::Started
}

/// Whether a frame brings a sample for the gesture under `id`.
pub open spec fn names(
    old: Map<u64, TouchState>,
    mouse: MouseSample,
    samples: Seq<TouchSample>,
    id: u64,
) -> bool {
    ||| id == MOUSE_ID && mouse_state(lookup(old, MOUSE_ID), mouse) is Some
    ||| exists|i: int| 0 <= i < samples.len() && (#[trigger] samples[i]).id == id
}

/// The gestures after a run of frames, each a mouse sample and the touch
/// records that came with it.
pub open spec fn after_frames(
    start: Map<u64, TouchState>,
    frames: Seq<(MouseSample, Seq<TouchSample>)>,
) -> Map<u64, TouchState>
    decreases frames.len(),
{
    if frames.len() == 0 {
        start
    } else {
        next_frame(after_frames(start, frames.drop_last()), frames.last().0, frames.last().1)
    }
}

/// Touch records that do not name `id` leave what `fresh` holds under it.
proof fn lemma_with_touches_elsewhere(
    old: Map<u64, TouchState>,
    fresh: Map<u64, TouchState>,
    samples: Seq<TouchSample>,
    id: u64,
)
    requires
        forall|i: int| 0 <= i < samples.len() ==> (#[trigger] samples[i]).id != id,
    ensures
        with_touches(old, fresh, samples).contains_key(id) == fresh.contains_key(id),
        fresh.contains_key(id) ==> with_touches(old, fresh, samples)[id] == fresh[id],
    decreases samples.len(),
{
    if samples.len() > 0 {
        assert(samples.last() == samples[samples.len() - 1]);
        assert forall|i: int| 0 <= i < samples.drop_last().len() implies (
        #[trigger] samples.drop_last()[i]).id != id by {
            assert(samples.drop_last()[i] == samples[i]);
        }
        lemma_with_touches_elsewhere(old, fresh, samples.drop_last(), id);
    }
}

/// Touch records that do not start `id` anew yield, under `id`, only a
/// gesture that was there before, with its flag unchanged.
proof fn lemma_with_touches_keeps_flag(
    old: Map<u64, TouchState>,
    fresh: Map<u64, TouchState>,
    samples: Seq<TouchSample>,
    id: u64,
)
    requires
        forall|i: int|
            0 <= i < samples.len() && (#[trigger] samples[i]).id == id ==> samples[i].phase
                != TouchPhase::Started,
        fresh.contains_key(id) ==> old.contains_key(id) && fresh[id].is_orbit == old[id].is_orbit,
    ensures
        with_touches(old, fresh, samples).contains_key(id) ==> old.contains_key(id)
            && with_touches(old, fresh, samples)[id].is_orbit == old[id].is_orbit,
    decreases samples.len(),
{
    if samples.len() > 0 {
        assert(samples.last() == samples[samples.len() - 1]);
        assert forall|i: int|
            0 <= i < samples.drop_last().len() && (#[trigger] samples.drop_last()[i]).id
                == id implies samples.drop_last()[i].phase != TouchPhase::Started by {
            assert(samples.drop_last()[i] == samples[i]);
        }
        lemma_with_touches_keeps_flag(old, fresh, samples.drop_last(), id);
    }
}

/// Whether a touch record yields a gesture: it starts one, or it moves or
/// ends one that was there before the frame.
pub open spec fn takes_effect(old: Map<u64, TouchState>, sample: TouchSample) -> bool {
    touch_state(lookup(old, sample.id), sample) is Some
}

/// Of the touch records of one id, the last that takes effect decides.
proof fn lemma_with_touches_last(
    old: Map<u64, TouchState>,
    fresh: Map<u64, TouchState>,
    samples: Seq<TouchSample>,
    k: int,
)
    requires
        0 <= k < samples.len(),
        takes_effect(old, samples[k]),
        forall|j: int|
            k < j < samples.len() && (#[trigger] samples[j]).id == samples[k].id ==> !takes_effect(
                old,
                samples[j],
            ),
    ensures
        with_touches(old, fresh, samples).contains_key(samples[k].id),
        Some(with_touches(old, fresh, samples)[samples[k].id]) == touch_state(
            lookup(old, samples[k].id),
            samples[k],
        ),
    decreases samples.len(),
{
    assert(samples.last() == samples[samples.len() - 1]);
    if k < samples.len() - 1 {
        let earlier = samples.drop_last();
        assert(earlier[k] == samples[k]);
        assert forall|j: int|
            k < j < earlier.len() && (#[trigger] earlier[j]).id == earlier[k].id implies !takes_effect(
            old,
            earlier[j],
        ) by {
            assert(earlier[j] == samples[j]);
        }
        lemma_with_touches_last(old, fresh, earlier, k);
    }
}

/// The gesture under an id after a frame is what the last touch record of
/// that id that takes effect yields.
pub proof fn lemma_last_record_decides(
    old: Map<u64, TouchState>,
    mouse: MouseSample,
    samples: Seq<TouchSample>,
    k: int,
)
    requires
        0 <= k < samples.len(),
        takes_effect(old, samples[k]),
        forall|j: int|
            k < j < samples.len() && (#[trigger] samples[j]).id == samples[k].id ==> !takes_effect(
                old,
                samples[j],
            ),
    ensures
        next_frame(old, mouse, samples).contains_key(samples[k].id),
        Some(next_frame(old, mouse, samples)[samples[k].id]) == touch_state(
            lookup(old, samples[k].id),
            samples[k],
        ),
{
    lemma_with_touches_last(old, mouse_gestures(old, mouse), samples, k);
}

/// Where no touch record names the mouse's id, the mouse's gesture after a
/// frame is what the mouse's sample yields.
pub proof fn lemma_mouse_sample_decides(
    old: Map<u64, TouchState>,
    mouse: MouseSample,
    samples: Seq<TouchSample>,
)
    requires
        forall|i: int| 0 <= i < samples.len() ==> (#[trigger] samples[i]).id != MOUSE_ID,
        mouse_state(lookup(old, MOUSE_ID), mouse) is Some,
    ensures
        next_frame(old, mouse, samples).contains_key(MOUSE_ID),
        Some(next_frame(old, mouse, samples)[MOUSE_ID]) == mouse_state(lookup(old, MOUSE_ID), mouse),
{
    lemma_with_touches_elsewhere(old, mouse_gestures(old, mouse), samples, MOUSE_ID);
}

/// A gesture that a frame brings no sample for stays if it has not ended,
/// standing where it stood, with its flag and without movement; one that has
/// ended is gone.
pub proof fn lemma_unsampled_gesture_is_carried(
    old: Map<u64, TouchState>,
    mouse: MouseSample,
    samples: Seq<TouchSample>,
    id: u64,
)
    requires
        !names(old, mouse, samples, id),
    ensures
        next_frame(old, mouse, samples).contains_key(id) <==> old.contains_key(id) && !is_terminal(
            old[id],
        ),
        next_frame(old, mouse, samples).contains_key(id) ==> next_frame(old, mouse, samples)[id]
            == carried(old[id]),
{
    lemma_with_touches_elsewhere(old, mouse_gestures(old, mouse), samples, id);
}

/// A gesture that is carried has not ended: while no sample names it, it
/// stays from frame to frame.
pub proof fn lemma_carried_gesture_stays(
    old: Map<u64, TouchState>,
    first: (MouseSample, Seq<TouchSample>),
    second: (MouseSample, Seq<TouchSample>),
    id: u64,
)
    requires
        old.contains_key(id),
        !is_terminal(old[id]),
        !names(old, first.0, first.1, id),
        !names(next_frame(old, first.0, first.1), second.0, second.1, id),
    ensures
        next_frame(next_frame(old, first.0, first.1), second.0, second.1).contains_key(id),
        next_frame(next_frame(old, first.0, first.1), second.0, second.1)[id] == carried(old[id]),
{
    lemma_unsampled_gesture_is_carried(old, first.0, first.1, id);
    lemma_unsampled_gesture_is_carried(next_frame(old, first.0, first.1), second.0, second.1, id);
}

/// A frame that does not start the gesture under `id` anew leaves its orbit
/// flag as it was, and tracks no gesture under `id` that was not there.
pub proof fn lemma_frame_keeps_flag(
    old: Map<u64, TouchState>,
    mouse: MouseSample,
    samples: Seq<TouchSample>,
    id: u64,
)
    requires
        !restarts(mouse, samples, id),
    ensures
        next_frame(old, mouse, samples).contains_key(id) ==> old.contains_key(id) && next_frame(
            old,
            mouse,
            samples,
        )[id].is_orbit == old[id].is_orbit,
{
    lemma_with_touches_keeps_flag(old, mouse_gestures(old, mouse), samples, id);
}

/// No gesture orbits the camera and places a ball in one frame.
pub proof fn lemma_orbit_excludes_placement(id: u64, state: TouchState)
    ensures
        !(orbit_of(state) is Some && candidate_of(id, state) is Some),
{
}

/// A gesture that may not place a ball is no candidate.
pub proof fn lemma_orbit_gesture_is_no_candidate(gestures: Map<u64, TouchState>, id: u64)
    requires
        gestures.contains_key(id),
        !may_place(gestures[id]),
    ensures
        forall|k: int|
            0 <= k < candidates_of(ordered(gestures)).len() ==> (#[trigger] candidates_of(
                ordered(gestures),
            )[k]).id != id,
{
    let entries = ordered(gestures);
    let pick = |e: (u64, TouchState)| candidate_of(e.0, e.1);
    lemma_ordered(gestures);
    assert forall|k: int| 0 <= k < candidates_of(entries).len() implies (#[trigger] candidates_of(
        entries,
    )[k]).id != id by {
        let c = candidates_of(entries)[k];
        assert(entries.filter_map(pick).contains(c));
        entries.lemma_filter_map_contains(pick, c);
        let t = choose|t: (u64, TouchState)| #[trigger] entries.contains(t) && pick(t) == Some(c);
        let i = choose|i: int| 0 <= i < entries.len() && entries[i] == t;
        assert(entries[i].1 == gestures[entries[i].0]);
    }
}

/// The orbit flag is fixed when a gesture starts: through any run of frames
/// that do not start it anew, the gesture keeps it.
pub proof fn lemma_orbit_flag_is_fixed(
    start: Map<u64, TouchState>,
    frames: Seq<(MouseSample, Seq<TouchSample>)>,
    id: u64,
)
    requires
        forall|f: int| 0 <= f < frames.len() ==> !restarts(frames[f].0, frames[f].1, id),
    ensures
        after_frames(start, frames).contains_key(id) ==> start.contains_key(id) && after_frames(
            start,
            frames,
        )[id].is_orbit == start[id].is_orbit,
    decreases frames.len(),
{
    if frames.len() > 0 {
        let earlier = frames.drop_last();
        assert forall|f: int| 0 <= f < earlier.len() implies !restarts(
            earlier[f].0,
            earlier[f].1,
            id,
        ) by {
            assert(earlier[f] == frames[f]);
        }
        lemma_orbit_flag_is_fixed(start, earlier, id);
        assert(frames.last() == frames[frames.len() - 1]);
        lemma_frame_keeps_flag(after_frames(start, earlier), frames.last().0, frames.last().1, id);
    }
}

/// A gesture that started as an orbit never places a ball: after any run of
/// frames that do not start it anew, it is no candidate for placement unless
/// it merely moves, wherever it stands by then.
pub proof fn lemma_orbit_gesture_never_places(
    start: Map<u64, TouchState>,
    frames: Seq<(MouseSample, Seq<TouchSample>)>,
    id: u64,
)
    requires
        start.contains_key(id),
        start[id].is_orbit,
        forall|f: int| 0 <= f < frames.len() ==> !restarts(frames[f].0, frames[f].1, id),
        after_frames(start, frames).contains_key(id),
        after_frames(start, frames)[id].event_type != CursorChangeType::Move,
    ensures
        forall|k: int|
            0 <= k < candidates_of(ordered(after_frames(start, frames))).len() ==> (
            #[trigger] candidates_of(ordered(after_frames(start, frames)))[k]).id != id,
{
    lemma_orbit_flag_is_fixed(start, frames, id);
    lemma_orbit_gesture_is_no_candidate(after_frames(start, frames), id);
}

} // verus!
