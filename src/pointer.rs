use vstd::prelude::*;

verus! {

/// How far, squared and in screen pixels, the cursor must move from where the
/// primary button went down before the gesture becomes a drag.
pub const DRAG_DISTANCE_SQUARED: u32 = 25;

/// What the pointer reported in one frame.
#[derive(Clone, Copy, Debug)]
pub struct PointerFrame {
    pub left_just_pressed: bool,
    pub left_pressed: bool,
    pub left_just_released: bool,
    pub right_just_pressed: bool,
    pub right_pressed: bool,
    pub right_just_released: bool,
    /// The cursor is at least the drag distance away from where the primary
    /// button went down.
    pub far_from_start: bool,
    /// The cursor is at least the drag distance away from where the secondary
    /// button went down.
    pub right_far_from_start: bool,
    /// The cell under the cursor, if it is over the board.
    pub cell: Option<(usize, usize)>,
}

/// What a frame of pointer input asks for.
#[derive(Clone, Copy, Debug, PartialEq, Eq, Structural)]
pub enum PointerAction {
    Nothing,
    /// Start a gesture: remember the cursor, the world point under it and the
    /// camera translation.
    Arm,
    /// Move the camera so that the world point grabbed stays under the cursor.
    Pan,
    /// A primary click on a cell.
    LeftClick(usize, usize),
    /// A secondary click on a cell.
    RightClick(usize, usize),
}

/// Whether the gesture under way with each button has become a drag.
#[derive(Clone, Copy, Debug, PartialEq, Eq, Structural)]
pub struct MouseState {
    /// The primary-button gesture is a drag.
    pub dragging: bool,
    /// The secondary-button gesture is a drag.
    pub right_dragging: bool,
}

/// Whether the secondary-button gesture is a drag after this frame: a press
/// starts a fresh gesture, and while the button is held the gesture turns
/// into a drag once the cursor has gone far enough, and stays one.
pub open spec fn right_dragging_after(s: MouseState, f: PointerFrame) -> bool {
    if f.right_just_pressed {
        false
    } else if f.right_pressed {
        s.right_dragging || f.right_far_from_start
    } else {
        s.right_dragging
    }
}

/// The state and the action that follow one frame of input. A click is
/// dispatched when its button comes up over a cell, unless that button's
/// gesture became a drag; a primary drag pans the camera.
pub open spec fn step(s: MouseState, f: PointerFrame) -> (MouseState, PointerAction) {
    let r = right_dragging_after(s, f);
    if f.left_just_pressed && !f.right_pressed {
        (MouseState { dragging: false, right_dragging: r }, PointerAction::Arm)
    } else if f.left_pressed && (s.dragging || f.far_from_start) {
        (MouseState { dragging: true, right_dragging: r }, PointerAction::Pan)
    } else if f.left_just_released && !s.dragging && f.cell is Some {
        match f.cell {
            Some((x, y)) => (MouseState { dragging: s.dragging, right_dragging: r }, PointerAction::LeftClick(x, y)),
            None => (MouseState { dragging: s.dragging, right_dragging: r }, PointerAction::Nothing),
        }
    } else if f.right_just_released && !r && f.cell is Some {
        match f.cell {
            Some((x, y)) => (MouseState { dragging: s.dragging, right_dragging: r }, PointerAction::RightClick(x, y)),
            None => (MouseState { dragging: s.dragging, right_dragging: r }, PointerAction::Nothing),
        }
    } else {
        (MouseState { dragging: s.dragging, right_dragging: r }, PointerAction::Nothing)
    }
}

impl MouseState {
    pub fn new() -> (r: MouseState)
        ensures
            !r.dragging,
            !r.right_dragging,
    {
        MouseState { dragging: false, right_dragging: false }
    }

    /// Starts a primary-button gesture, not yet a drag.
    pub fn set(&mut self)
        ensures
            !final(self).dragging,
            final(self).right_dragging == old(self).right_dragging,
    {
        self.dragging = false;
    }

    /// Turns the primary-button gesture into a drag once the cursor has gone
    /// far enough; a drag stays a drag until the button is released.
    pub fn check_dragging(&mut self, far_from_start: bool) -> (r: bool)
        ensures
            r == (old(self).dragging || far_from_start),
            final(self).dragging == r,
            final(self).right_dragging == old(self).right_dragging,
    {
        self.dragging = self.dragging || far_from_start;
        self.dragging
    }

    /// Decides what one frame of pointer input does.
    pub fn frame(&mut self, f: &PointerFrame) -> (a: PointerAction)
        ensures
            (*final(self), a) == step(*old(self), *f),
    {
        if f.right_just_pressed {
            self.right_dragging = false;
        } else if f.right_pressed {
            self.right_dragging = self.right_dragging || f.right_far_from_start;
        }
        if f.left_just_pressed && !f.right_pressed {
            self.set();
            PointerAction::Arm
        } else if f.left_pressed && self.check_dragging(f.far_from_start) {
            PointerAction::Pan
        } else if f.left_just_released && !self.dragging && f.cell.is_some() {
            let (x, y) = f.cell.unwrap();
            PointerAction::LeftClick(x, y)
        } else if f.right_just_released && !self.right_dragging && f.cell.is_some() {
            let (x, y) = f.cell.unwrap();
            PointerAction::RightClick(x, y)
        } else {
            PointerAction::Nothing
        }
    }
}

/// The state and the actions after a run of frames, in order.
pub open spec fn run(s: MouseState, frames: Seq<PointerFrame>) -> (MouseState, Seq<PointerAction>)
    decreases frames.len(),
{
    if frames.len() == 0 {
        (s, Seq::empty())
    } else {
        let (s1, actions) = run(s, frames.drop_last());
        let (s2, a) = step(s1, frames.last());
        (s2, actions.push(a))
    }
}

/// How many of the actions are clicks.
pub open spec fn clicks(actions: Seq<PointerAction>) -> nat
    decreases actions.len(),
{
    if actions.len() == 0 {
        0
    } else {
        clicks(actions.drop_last()) + match actions.last() {
            PointerAction::LeftClick(_, _) | PointerAction::RightClick(_, _) => 1nat,
            _ => 0nat,
        }
    }
}

/// The secondary button is untouched in this frame.
pub open spec fn right_idle(f: PointerFrame) -> bool {
    !f.right_just_pressed && !f.right_pressed && !f.right_just_released
}

/// The primary button is untouched in this frame.
pub open spec fn left_idle(f: PointerFrame) -> bool {
    !f.left_just_pressed && !f.left_pressed && !f.left_just_released
}

/// The primary button goes down with the secondary one up.
pub open spec fn is_press(f: PointerFrame) -> bool {
    f.left_just_pressed && f.left_pressed && !f.left_just_released && right_idle(f)
}

/// The primary button stays down and the secondary one up.
pub open spec fn is_hold(f: PointerFrame) -> bool {
    !f.left_just_pressed && f.left_pressed && !f.left_just_released && right_idle(f)
}

/// The primary button comes up with the secondary one up.
pub open spec fn is_release(f: PointerFrame) -> bool {
    !f.left_just_pressed && !f.left_pressed && f.left_just_released && right_idle(f)
}

/// The secondary button goes down with the primary one up.
pub open spec fn is_right_press(f: PointerFrame) -> bool {
    f.right_just_pressed && f.right_pressed && !f.right_just_released && left_idle(f)
}

/// The secondary button stays down and the primary one up.
pub open spec fn is_right_hold(f: PointerFrame) -> bool {
    !f.right_just_pressed && f.right_pressed && !f.right_just_released && left_idle(f)
}

/// The secondary button comes up with the primary one up.
pub open spec fn is_right_release(f: PointerFrame) -> bool {
    !f.right_just_pressed && !f.right_pressed && f.right_just_released && left_idle(f)
}

/// A press, the frames while the button is held, and the release.
pub open spec fn gesture(press: PointerFrame, holds: Seq<PointerFrame>, release: PointerFrame) -> Seq<PointerFrame> {
    (seq![press] + holds).push(release)
}

proof fn lemma_holds(s: MouseState, press: PointerFrame, holds: Seq<PointerFrame>, k: int)
    requires
        is_press(press),
        0 <= k <= holds.len(),
        forall|j: int| 0 <= j < holds.len() ==> is_hold(#[trigger] holds[j]),
    ensures
        ({
            let (s1, actions) = run(s, seq![press] + holds.take(k));
            &&& clicks(actions) == 0
            &&& actions.len() == k + 1
            &&& s1.dragging == exists|j: int| 0 <= j < k && (#[trigger] holds[j]).far_from_start
            &&& s1.dragging ==> exists|j: int| 0 <= j < actions.len() && #[trigger] actions[j] == PointerAction::Pan
        }),
    decreases k,
{
    if k == 0 {
        assert(seq![press] + holds.take(0) =~= seq![press]);
        assert(seq![press].drop_last() =~= Seq::<PointerFrame>::empty());
        assert(run(s, Seq::<PointerFrame>::empty()) == (s, Seq::<PointerAction>::empty()));
        assert(seq![press].last() == press);
        assert(clicks(Seq::<PointerAction>::empty()) == 0);
        assert(run(s, seq![press]) == (MouseState { dragging: false, right_dragging: s.right_dragging }, Seq::<PointerAction>::empty().push(PointerAction::Arm)));
        assert(Seq::<PointerAction>::empty().push(PointerAction::Arm).drop_last() =~= Seq::<PointerAction>::empty());
        assert(clicks(Seq::<PointerAction>::empty().push(PointerAction::Arm)) == 0);
    } else {
        lemma_holds(s, press, holds, k - 1);
        let prev = seq![press] + holds.take(k - 1);
        assert((seq![press] + holds.take(k)).drop_last() =~= prev);
        assert((seq![press] + holds.take(k)).last() == holds[k - 1]);
        let (s1, actions) = run(s, prev);
        let (s2, a) = step(s1, holds[k - 1]);
        assert(run(s, seq![press] + holds.take(k)) == (s2, actions.push(a)));
        assert(actions.push(a).drop_last() =~= actions);
        assert(clicks(actions.push(a)) == clicks(actions));
        if s1.dragging {
            let j = choose|j: int| 0 <= j < actions.len() && #[trigger] actions[j] == PointerAction::Pan;
            assert(actions.push(a)[j] == PointerAction::Pan);
        }
        if s2.dragging {
            assert(actions.push(a)[k] == a);
            if !s1.dragging {
                assert(holds[k - 1].far_from_start);
            }
        }
        if !s2.dragging {
            assert forall|j: int| 0 <= j < k implies !(#[trigger] holds[j]).far_from_start by {
                if j < k - 1 {
                    assert(!(exists|j: int| 0 <= j < k - 1 && (#[trigger] holds[j]).far_from_start));
                }
            }
        }
    }
}

/// A press, any number of frames in which the cursor stays closer than the
/// drag distance, and a release over a cell give exactly one click: a
/// primary click on that cell, on the release.
pub proof fn lemma_short_press_clicks_once(
    s: MouseState,
    press: PointerFrame,
    holds: Seq<PointerFrame>,
    release: PointerFrame,
)
    requires
        is_press(press),
        forall|j: int| 0 <= j < holds.len() ==> is_hold(#[trigger] holds[j]) && !holds[j].far_from_start,
        is_release(release),
        release.cell is Some,
    ensures
        clicks(run(s, gesture(press, holds, release)).1) == 1,
        match release.cell {
            Some((x, y)) => run(s, gesture(press, holds, release)).1.last() == PointerAction::LeftClick(x, y),
            None => false,
        },
{
    lemma_holds(s, press, holds, holds.len() as int);
    assert(holds.take(holds.len() as int) =~= holds);
    assert(gesture(press, holds, release).drop_last() =~= seq![press] + holds);
    let (s1, actions) = run(s, seq![press] + holds);
    assert(actions.push(step(s1, release).1).drop_last() =~= actions);
    assert(gesture(press, holds, release).last() == release);
    assert(run(s, gesture(press, holds, release)).1 == actions.push(step(s1, release).1));
}

/// A press, frames in which the cursor at some point reaches the drag
/// distance, and a release give no click and at least one camera pan.
pub proof fn lemma_drag_never_clicks(
    s: MouseState,
    press: PointerFrame,
    holds: Seq<PointerFrame>,
    release: PointerFrame,
)
    requires
        is_press(press),
        forall|j: int| 0 <= j < holds.len() ==> is_hold(#[trigger] holds[j]),
        exists|j: int| 0 <= j < holds.len() && (#[trigger] holds[j]).far_from_start,
        is_release(release),
    ensures
        clicks(run(s, gesture(press, holds, release)).1) == 0,
        exists|j: int|
            0 <= j < run(s, gesture(press, holds, release)).1.len() && #[trigger] run(s, gesture(press, holds, release)).1[j]
                == PointerAction::Pan,
{
    lemma_holds(s, press, holds, holds.len() as int);
    assert(holds.take(holds.len() as int) =~= holds);
    assert(gesture(press, holds, release).drop_last() =~= seq![press] + holds);
    let (s1, actions) = run(s, seq![press] + holds);
    let all = actions.push(step(s1, release).1);
    assert(all.drop_last() =~= actions);
    assert(gesture(press, holds, release).last() == release);
    assert(run(s, gesture(press, holds, release)).1 == all);
    let j = choose|j: int| 0 <= j < actions.len() && #[trigger] actions[j] == PointerAction::Pan;
    assert(all[j] == PointerAction::Pan);
}

proof fn lemma_right_holds(s: MouseState, press: PointerFrame, holds: Seq<PointerFrame>, k: int)
    requires
        is_right_press(press),
        0 <= k <= holds.len(),
        forall|j: int| 0 <= j < holds.len() ==> is_right_hold(#[trigger] holds[j]),
    ensures
        ({
            let (s1, actions) = run(s, seq![press] + holds.take(k));
            &&& clicks(actions) == 0
            &&& actions.len() == k + 1
            &&& s1.right_dragging == exists|j: int| 0 <= j < k && (#[trigger] holds[j]).right_far_from_start
        }),
    decreases k,
{
    if k == 0 {
        assert(seq![press] + holds.take(0) =~= seq![press]);
        assert(seq![press].drop_last() =~= Seq::<PointerFrame>::empty());
        assert(run(s, Seq::<PointerFrame>::empty()) == (s, Seq::<PointerAction>::empty()));
        assert(seq![press].last() == press);
        assert(clicks(Seq::<PointerAction>::empty()) == 0);
        assert(Seq::<PointerAction>::empty().push(PointerAction::Nothing).drop_last() =~= Seq::<PointerAction>::empty());
    } else {
        lemma_right_holds(s, press, holds, k - 1);
        let prev = seq![press] + holds.take(k - 1);
        assert((seq![press] + holds.take(k)).drop_last() =~= prev);
        assert((seq![press] + holds.take(k)).last() == holds[k - 1]);
        let (s1, actions) = run(s, prev);
        let (s2, a) = step(s1, holds[k - 1]);
        assert(run(s, seq![press] + holds.take(k)) == (s2, actions.push(a)));
        assert(actions.push(a).drop_last() =~= actions);
        assert(clicks(actions.push(a)) == clicks(actions));
        if !s2.right_dragging {
            assert forall|j: int| 0 <= j < k implies !(#[trigger] holds[j]).right_far_from_start by {
                if j < k - 1 {
                    assert(!(exists|j: int| 0 <= j < k - 1 && (#[trigger] holds[j]).right_far_from_start));
                }
            }
        }
    }
}

/// A secondary press, any number of frames in which the cursor stays closer
/// than the drag distance, and a release over a cell give exactly one click:
/// a secondary click on the cell under the cursor at the release.
pub proof fn lemma_short_secondary_press_clicks_once(
    s: MouseState,
    press: PointerFrame,
    holds: Seq<PointerFrame>,
    release: PointerFrame,
)
    requires
        is_right_press(press),
        forall|j: int| 0 <= j < holds.len() ==> is_right_hold(#[trigger] holds[j]) && !holds[j].right_far_from_start,
        is_right_release(release),
        release.cell is Some,
    ensures
        clicks(run(s, gesture(press, holds, release)).1) == 1,
        match release.cell {
            Some((x, y)) => run(s, gesture(press, holds, release)).1.last() == PointerAction::RightClick(x, y),
            None => false,
        },
{
    lemma_right_holds(s, press, holds, holds.len() as int);
    assert(holds.take(holds.len() as int) =~= holds);
    assert(gesture(press, holds, release).drop_last() =~= seq![press] + holds);
    let (s1, actions) = run(s, seq![press] + holds);
    assert(actions.push(step(s1, release).1).drop_last() =~= actions);
    assert(gesture(press, holds, release).last() == release);
    assert(run(s, gesture(press, holds, release)).1 == actions.push(step(s1, release).1));
}

/// A secondary press, frames in which the cursor at some point reaches the
/// drag distance, and a release give no click.
pub proof fn lemma_secondary_drag_never_clicks(
    s: MouseState,
    press: PointerFrame,
    holds: Seq<PointerFrame>,
    release: PointerFrame,
)
    requires
        is_right_press(press),
        forall|j: int| 0 <= j < holds.len() ==> is_right_hold(#[trigger] holds[j]),
        exists|j: int| 0 <= j < holds.len() && (#[trigger] holds[j]).right_far_from_start,
        is_right_release(release),
    ensures
        clicks(run(s, gesture(press, holds, release)).1) == 0,
{
    lemma_right_holds(s, press, holds, holds.len() as int);
    assert(holds.take(holds.len() as int) =~= holds);
    assert(gesture(press, holds, release).drop_last() =~= seq![press] + holds);
    let (s1, actions) = run(s, seq![press] + holds);
    let all = actions.push(step(s1, release).1);
    assert(all.drop_last() =~= actions);
    assert(gesture(press, holds, release).last() == release);
    assert(run(s, gesture(press, holds, release)).1 == all);
}

} // verus!
