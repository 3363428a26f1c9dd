use vstd::prelude::*;

use crate::config::DISPLAY_HEIGHT;
use crate::config::DISPLAY_WIDTH;
use crate::config::NEEDS_COORDINATE_INVERSION;

verus! {

/// Number of contacts the multi-touch device tracks.
pub const FINGER_SLOTS: usize = 12;

/// How the single-pointer device maps panel coordinates onto the display.
#[derive(Debug, Clone, Copy, PartialEq, Eq, Structural)]
pub enum CTypeTransformCoordinates {
    /// One axis passed through, the other flipped against the panel height.
    Ver01,
    /// Both axes scaled proportionally.
    Ver02,
}

/// Which host device receives the touches.
#[derive(Debug, Clone, Copy, PartialEq, Eq, Structural)]
pub enum CIdentDevice {
    /// An emulated pointer that moves and clicks.
    X11Mouse(CTypeTransformCoordinates),
    /// A multi-touch digitizer.
    UInput,
}

/// One primitive call on the host device.
#[derive(Debug, Clone, Copy, PartialEq, Eq, Structural)]
pub enum HostAction {
    /// Move the pointer to an absolute position.
    MoveAbsolute { x: i32, y: i32 },
    /// Click the left button.
    Click,
    /// Select a multi-touch slot.
    SetSlot(usize),
    /// Set the tracking id of the selected slot (`-1`: untracked).
    SetTrackingId(i32),
    /// Set the absolute x of the selected slot.
    SetPositionX(i32),
    /// Set the absolute y of the selected slot.
    SetPositionY(i32),
    /// Touch down.
    Press,
    /// Touch up.
    Release,
    /// Commit the events sent since the last commit.
    Synchronize,
}

/// The state a host device keeps.
pub enum DeviceView {
    Pointer { transform: CTypeTransformCoordinates, cx: u16, cy: u16, pending_click: bool },
    Touch { cursor: usize, fingers: Seq<Option<i8>> },
}

/// Panel coordinates with the axes swapped where the panel asks for it.
pub open spec fn swap_axes(x: u16, y: u16) -> (int, int) {
    if NEEDS_COORDINATE_INVERSION {
        (y as int, x as int)
    } else {
        (x as int, y as int)
    }
}

/// Integer division rounding toward zero.
pub open spec fn div_trunc(n: int, d: int) -> int {
    let an = if n < 0 { -n } else { n };
    let ad = if d < 0 { -d } else { d };
    if (n < 0) != (d < 0) {
        -(an / ad)
    } else {
        an / ad
    }
}

/// Maps `v` from the range `[in_min, in_max]` onto `[out_min, out_max]`.
pub open spec fn remap(v: int, in_min: int, in_max: int, out_min: int, out_max: int) -> int {
    div_trunc((v - in_min) * (out_max - out_min), in_max - in_min) + out_min
}

/// Where the single pointer goes for a touch at panel position `(x, y)`.
pub open spec fn pointer_target(t: CTypeTransformCoordinates, x: u16, y: u16) -> (int, int) {
    let (sx, sy) = swap_axes(x, y);
    match t {
        CTypeTransformCoordinates::Ver01 => (sx, DISPLAY_HEIGHT - sy),
        CTypeTransformCoordinates::Ver02 => (
            remap(sx, 0, DISPLAY_WIDTH as int, 0, DISPLAY_HEIGHT as int),
            remap(sy, DISPLAY_HEIGHT as int, 0, 0, DISPLAY_HEIGHT / 2),
        ),
    }
}

/// Where a contact at panel position `(x, y)` lands on the multi-touch device.
pub open spec fn touch_position(x: u16, y: u16) -> (int, int) {
    let (sx, sy) = swap_axes(x, y);
    (sx, DISPLAY_HEIGHT - sy)
}

/// The single pointer follows fingers 0 and 1 only.
pub open spec fn pointer_accepts(id: i8) -> bool {
    0 <= id <= 1
}

/// Finger `id` holds a slot.
pub open spec fn is_tracked(f: Seq<Option<i8>>, id: i8) -> bool {
    exists|k: int| 0 <= k < f.len() && f[k] == Some(id)
}

/// `j` is the first free slot.
pub open spec fn is_first_empty(f: Seq<Option<i8>>, j: int) -> bool {
    &&& 0 <= j < f.len()
    &&& f[j] is None
    &&& forall|k: int| 0 <= k < j ==> f[k] is Some
}

/// The slot table after finger `id` takes the first free slot, if any is free.
pub open spec fn allocate(f: Seq<Option<i8>>, id: i8) -> Seq<Option<i8>> {
    if exists|j: int| is_first_empty(f, j) {
        f.update(choose|j: int| is_first_empty(f, j), Some(id))
    } else {
        f
    }
}

/// Releases of the occupied slots among the first `n`, in increasing order.
pub open spec fn releases(f: Seq<Option<i8>>, n: nat) -> Seq<HostAction>
    decreases n,
{
    if n == 0 {
        Seq::empty()
    } else {
        let before = releases(f, (n - 1) as nat);
        match f[n - 1] {
            Some(id) => before + seq![
                HostAction::SetSlot((n - 1) as usize),
                HostAction::SetTrackingId(id as i32),
                HostAction::Release,
                HostAction::Synchronize,
            ],
            None => before,
        }
    }
}

/// Marks slots `s`, `s - 1`, ..., `0` untracked.
pub open spec fn untrack_from(s: nat) -> Seq<HostAction>
    decreases s,
{
    let head = seq![HostAction::SetSlot(s as usize), HostAction::SetTrackingId(-1i32), HostAction::Synchronize];
    if s == 0 {
        head
    } else {
        head + untrack_from((s - 1) as nat)
    }
}

/// The pointer moves for this touch.
pub open spec fn pointer_moves(cx: u16, cy: u16, id: i8, x: u16, y: u16) -> bool {
    pointer_accepts(id) && !(x == cx && y == cy)
}

/// The device state after `push_move(_, id, x, y)`.
pub open spec fn state_after_move(v: DeviceView, id: i8, x: u16, y: u16) -> DeviceView {
    match v {
        DeviceView::Pointer { transform, cx, cy, pending_click } => {
            if pointer_moves(cx, cy, id, x, y) {
                DeviceView::Pointer { transform, cx: x, cy: y, pending_click: true }
            } else {
                v
            }
        },
        DeviceView::Touch { cursor, fingers } => DeviceView::Touch {
            cursor,
            fingers: if is_tracked(fingers, id) { fingers } else { allocate(fingers, id) },
        },
    }
}

/// The host calls `push_move(_, id, x, y)` makes.
pub open spec fn actions_of_move(v: DeviceView, id: i8, x: u16, y: u16) -> Seq<HostAction> {
    match v {
        DeviceView::Pointer { transform, cx, cy, pending_click } => {
            if pointer_moves(cx, cy, id, x, y) {
                let (mx, my) = pointer_target(transform, x, y);
                seq![HostAction::MoveAbsolute { x: mx as i32, y: my as i32 }]
            } else {
                Seq::empty()
            }
        },
        DeviceView::Touch { cursor, fingers } => {
            let (px, py) = touch_position(x, y);
            let press = if is_tracked(fingers, id) { Seq::empty() } else { seq![HostAction::Press] };
            seq![HostAction::SetSlot(cursor)] + press + seq![
                HostAction::SetTrackingId(id as i32),
                HostAction::SetPositionX(px as i32),
                HostAction::SetPositionY(py as i32),
                HostAction::Synchronize,
            ]
        },
    }
}

/// The device state after `drop_event()`.
pub open spec fn state_after_drop(v: DeviceView) -> DeviceView {
    match v {
        DeviceView::Pointer { .. } => v,
        DeviceView::Touch { cursor, fingers } => DeviceView::Touch {
            cursor: if cursor < usize::MAX { (cursor + 1) as usize } else { cursor },
            fingers,
        },
    }
}

/// The device state after `free_time()`.
pub open spec fn state_after_free(v: DeviceView) -> DeviceView {
    match v {
        DeviceView::Pointer { transform, cx, cy, pending_click } => DeviceView::Pointer {
            transform,
            cx,
            cy,
            pending_click: false,
        },
        DeviceView::Touch { cursor, fingers } => DeviceView::Touch {
            cursor: 0,
            fingers: Seq::new(fingers.len(), |i: int| None),
        },
    }
}

/// The host calls `free_time()` makes.
pub open spec fn actions_of_free(v: DeviceView) -> Seq<HostAction> {
    match v {
        DeviceView::Pointer { pending_click, .. } => {
            if pending_click {
                seq![HostAction::Click]
            } else {
                Seq::empty()
            }
        },
        DeviceView::Touch { cursor, fingers } => releases(fingers, fingers.len()) + untrack_from(
            cursor as nat,
        ),
    }
}

/// The device state a fresh device of kind `c` starts in.
pub open spec fn initial_device(c: CIdentDevice) -> DeviceView {
    match c {
        CIdentDevice::X11Mouse(transform) => DeviceView::Pointer {
            transform,
            cx: 0,
            cy: 0,
            pending_click: false,
        },
        CIdentDevice::UInput => DeviceView::Touch {
            cursor: 0,
            fingers: Seq::new(FINGER_SLOTS as nat, |i: int| None),
        },
    }
}

/// Slots from `m` up to `n` are free, so releasing the first `n` slots is
/// releasing the first `m`.
proof fn lemma_releases_free_tail(f: Seq<Option<i8>>, m: nat, n: nat)
    requires
        m <= n <= f.len(),
        forall|k: int| m <= k < n ==> f[k] is None,
    ensures
        releases(f, n) == releases(f, m),
    decreases n,
{
    if n > m {
        lemma_releases_free_tail(f, m, (n - 1) as nat);
    }
}

/// A fresh multi-touch device after finger `a` at `(xa, ya)` and then
/// finger `b` at `(xb, yb)` arrive in one frame.
pub open spec fn after_two_fingers(a: i8, xa: u16, ya: u16, b: i8, xb: u16, yb: u16) -> DeviceView {
    let v1 = state_after_drop(state_after_move(initial_device(CIdentDevice::UInput), a, xa, ya));
    state_after_drop(state_after_move(v1, b, xb, yb))
}

/// Two fingers in one frame: on a fresh multi-touch device, records of two
/// distinct fingers `a` then `b` in one frame take slots 0 and 1, in that
/// order; the lift that follows releases slot 0 for `a` and slot 1 for
/// `b`, then marks slots 2, 1 and 0 untracked, and frees every slot.
pub proof fn lemma_two_fingers(a: i8, xa: u16, ya: u16, b: i8, xb: u16, yb: u16)
    requires
        a != b,
    ensures
        after_two_fingers(a, xa, ya, b, xb, yb) == (DeviceView::Touch {
            cursor: 2,
            fingers: Seq::new(FINGER_SLOTS as nat, |i: int| None::<i8>).update(0, Some(a)).update(1, Some(b)),
        }),
        actions_of_free(after_two_fingers(a, xa, ya, b, xb, yb)) == seq![
            HostAction::SetSlot(0),
            HostAction::SetTrackingId(a as i32),
            HostAction::Release,
            HostAction::Synchronize,
            HostAction::SetSlot(1),
            HostAction::SetTrackingId(b as i32),
            HostAction::Release,
            HostAction::Synchronize,
        ] + untrack_from(2),
        state_after_free(after_two_fingers(a, xa, ya, b, xb, yb)) == (DeviceView::Touch {
            cursor: 0,
            fingers: Seq::new(FINGER_SLOTS as nat, |i: int| None::<i8>),
        }),
{
    let f0 = Seq::new(FINGER_SLOTS as nat, |i: int| None::<i8>);
    assert(!is_tracked(f0, a));
    assert(is_first_empty(f0, 0));
    let j0 = choose|j: int| is_first_empty(f0, j);
    assert(j0 == 0) by {
        if j0 > 0 {
            assert(f0[0] is Some);
        }
    }
    let f1 = f0.update(0, Some(a));
    assert(allocate(f0, a) == f1);
    assert(!is_tracked(f1, b)) by {
        if is_tracked(f1, b) {
            let k = choose|k: int| 0 <= k < f1.len() && f1[k] == Some(b);
            assert(k != 0);
        }
    }
    assert(is_first_empty(f1, 1));
    let j1 = choose|j: int| is_first_empty(f1, j);
    assert(j1 == 1) by {
        if j1 > 1 {
            assert(f1[1] is Some);
        } else if j1 < 1 {
            assert(f1[0] is Some);
        }
    }
    let f2 = f1.update(1, Some(b));
    assert(allocate(f1, b) == f2);
    lemma_releases_free_tail(f2, 2, 12);
    assert(releases(f2, 0) == Seq::<HostAction>::empty());
    assert(releases(f2, 1) =~= seq![
        HostAction::SetSlot(0),
        HostAction::SetTrackingId(a as i32),
        HostAction::Release,
        HostAction::Synchronize,
    ]);
    assert(releases(f2, 2) =~= seq![
        HostAction::SetSlot(0),
        HostAction::SetTrackingId(a as i32),
        HostAction::Release,
        HostAction::Synchronize,
        HostAction::SetSlot(1),
        HostAction::SetTrackingId(b as i32),
        HostAction::Release,
        HostAction::Synchronize,
    ]);
    assert(Seq::new(f2.len(), |i: int| None::<i8>) =~= f0);
}

/// The state machine behind a host device: a single pointer or a
/// multi-touch digitizer.
pub enum InputDevice {
    X11Mouse { transform: CTypeTransformCoordinates, cx: u16, cy: u16, is_add_click: bool },
    UInput { a_slot: usize, fingers: Vec<Option<i8>> },
}

impl View for InputDevice {
    type V = DeviceView;

    open spec fn view(&self) -> DeviceView {
        match self {
            InputDevice::X11Mouse { transform, cx, cy, is_add_click } => DeviceView::Pointer {
                transform: *transform,
                cx: *cx,
                cy: *cy,
                pending_click: *is_add_click,
            },
            InputDevice::UInput { a_slot, fingers } => DeviceView::Touch {
                cursor: *a_slot,
                fingers: fingers@,
            },
        }
    }
}

impl InputDevice {
    /// The slot table has its fixed size.
    pub open spec fn wf(&self) -> bool {
        match self {
            InputDevice::X11Mouse { .. } => true,
            InputDevice::UInput { fingers, .. } => fingers@.len() == FINGER_SLOTS,
        }
    }

    pub fn new(c_ident_device: CIdentDevice) -> (r: Self)
        ensures
            r.wf(),
            r@ == initial_device(c_ident_device),
    {
        match c_ident_device {
            CIdentDevice::X11Mouse(transform) => InputDevice::X11Mouse {
                transform,
                cx: 0,
                cy: 0,
                is_add_click: false,
            },
            CIdentDevice::UInput => {
                let fingers: Vec<Option<i8>> = vec![None; FINGER_SLOTS];
                assert(fingers@ =~= Seq::new(FINGER_SLOTS as nat, |i: int| None::<i8>));
                InputDevice::UInput { a_slot: 0, fingers }
            },
        }
    }

    /// Nothing to prepare before a frame's records.
    pub fn initialize_event_aggregator(&mut self)
        ensures
            *final(self) == *old(self),
    {
    }

    /// Nothing to press ahead of the first record.
    pub fn init_press(&mut self)
        ensures
            *final(self) == *old(self),
    {
    }

    /// Moves the multi-touch write cursor to the next slot.
    pub fn drop_event(&mut self)
        requires
            old(self).wf(),
        ensures
            final(self).wf(),
            final(self)@ == state_after_drop(old(self)@),
    {
        match self {
            InputDevice::X11Mouse { .. } => {},
            InputDevice::UInput { a_slot, .. } => {
                if *a_slot < usize::MAX {
                    *a_slot = *a_slot + 1;
                }
            },
        }
    }

    /// Feeds one touch record (finger `id` at panel position `(x, y)`, in a
    /// frame from `address`) to the device; returns the host calls to make.
    /// The address identifies the sender only and changes nothing.
    pub fn push_move(&mut self, address: u16, id: i8, x: u16, y: u16) -> (r: Vec<HostAction>)
        requires
            old(self).wf(),
        ensures
            final(self).wf(),
            final(self)@ == state_after_move(old(self)@, id, x, y),
            r@ == actions_of_move(old(self)@, id, x, y),
    {
        let mut out: Vec<HostAction> = Vec::new();
        match self {
            InputDevice::X11Mouse { transform, cx, cy, is_add_click } => {
                if 0 <= id && id <= 1 && (x != *cx || y != *cy) {
                    *cx = x;
                    *cy = y;
                    let (mx, my) = pointer_target_exec(*transform, x, y);
                    out.push(HostAction::MoveAbsolute { x: mx, y: my });
                    *is_add_click = true;
                }
            },
            InputDevice::UInput { a_slot, fingers } => {
                let (px, py) = touch_position_exec(x, y);
                let known = tracks(fingers, id);
                out.push(HostAction::SetSlot(*a_slot));
                if !known {
                    out.push(HostAction::Press);
                    take_first_empty(fingers, id);
                }
                out.push(HostAction::SetTrackingId(id as i32));
                out.push(HostAction::SetPositionX(px));
                out.push(HostAction::SetPositionY(py));
                out.push(HostAction::Synchronize);
            },
        }
        out
    }

    /// A capture cycle brought no record: the fingers have lifted. Returns
    /// the host calls to make.
    pub fn free_time(&mut self) -> (r: Vec<HostAction>)
        requires
            old(self).wf(),
        ensures
            final(self).wf(),
            final(self)@ == state_after_free(old(self)@),
            r@ == actions_of_free(old(self)@),
    {
        let mut out: Vec<HostAction> = Vec::new();
        match self {
            InputDevice::X11Mouse { is_add_click, .. } => {
                if *is_add_click {
                    *is_add_click = false;
                    out.push(HostAction::Click);
                }
            },
            InputDevice::UInput { a_slot, fingers } => {
                let ghost f = fingers@;
                release_all(fingers, &mut out);
                let ghost released = out@;
                let ghost start = *a_slot as nat;
                let mut slot: usize = *a_slot;
                while slot != 0
                    invariant
                        out@ + untrack_from(slot as nat) == released + untrack_from(start),
                    decreases slot,
                {
                    let ghost before = out@;
                    out.push(HostAction::SetSlot(slot));
                    out.push(HostAction::SetTrackingId(-1));
                    out.push(HostAction::Synchronize);
                    proof {
                        let head = seq![
                            HostAction::SetSlot(slot),
                            HostAction::SetTrackingId(-1i32),
                            HostAction::Synchronize,
                        ];
                        assert(out@ == before + head);
                        assert(untrack_from(slot as nat) == head + untrack_from((slot - 1) as nat));
                        assert(before + (head + untrack_from((slot - 1) as nat)) == (before + head)
                            + untrack_from((slot - 1) as nat));
                    }
                    slot = slot - 1;
                }
                out.push(HostAction::SetSlot(0));
                out.push(HostAction::SetTrackingId(-1));
                out.push(HostAction::Synchronize);
                assert(out@ == released + untrack_from(start));
                *a_slot = 0;
                assert(fingers@ =~= Seq::new(f.len(), |i: int| None::<i8>));
            },
        }
        out
    }
}

/// Appends a release for every occupied slot, in increasing order, and
/// empties the slot table.
fn release_all(fingers: &mut Vec<Option<i8>>, out: &mut Vec<HostAction>)
    ensures
        final(fingers)@ == Seq::new(old(fingers)@.len(), |i: int| None::<i8>),
        final(out)@ == old(out)@ + releases(old(fingers)@, old(fingers)@.len()),
{
    let ghost f = fingers@;
    let ghost o = out@;
    let mut i: usize = 0;
    while i < fingers.len()
        invariant
            f == old(fingers)@,
            o == old(out)@,
            fingers@.len() == f.len(),
            i <= f.len(),
            forall|k: int| 0 <= k < i ==> fingers@[k] is None,
            forall|k: int| i <= k < f.len() ==> fingers@[k] == f[k],
            out@ == o + releases(f, i as nat),
        decreases f.len() - i,
    {
        let ghost before = out@;
        if let Some(id) = fingers[i] {
            out.push(HostAction::SetSlot(i));
            out.push(HostAction::SetTrackingId(id as i32));
            out.push(HostAction::Release);
            out.push(HostAction::Synchronize);
            fingers.set(i, None);
            assert(out@ =~= o + releases(f, (i + 1) as nat));
        } else {
            assert(out@ =~= o + releases(f, (i + 1) as nat));
        }
        i = i + 1;
    }
    assert(fingers@ =~= Seq::new(f.len(), |i: int| None::<i8>));
}

/// Whether finger `id` holds a slot of `fingers`.
fn tracks(fingers: &Vec<Option<i8>>, id: i8) -> (r: bool)
    ensures
        r == is_tracked(fingers@, id),
{
    let mut i: usize = 0;
    while i < fingers.len()
        invariant
            i <= fingers@.len(),
            forall|k: int| 0 <= k < i ==> fingers@[k] != Some(id),
        decreases fingers@.len() - i,
    {
        if fingers[i] == Some(id) {
            return true;
        }
        i = i + 1;
    }
    false
}

/// Gives finger `id` the first free slot, if one is free.
fn take_first_empty(fingers: &mut Vec<Option<i8>>, id: i8)
    ensures
        final(fingers)@ == allocate(old(fingers)@, id),
{
    let ghost f = fingers@;
    let mut i: usize = 0;
    while i < fingers.len()
        invariant
            fingers@ == f,
            f == old(fingers)@,
            i <= f.len(),
            forall|k: int| 0 <= k < i ==> f[k] is Some,
        decreases f.len() - i,
    {
        if fingers[i].is_none() {
            fingers.set(i, Some(id));
            proof {
                assert(is_first_empty(f, i as int));
                let j = choose|j: int| is_first_empty(f, j);
                assert(j == i) by {
                    if j < i {
                        assert(f[j] is Some);
                    } else if j > i {
                        assert(f[i as int] is Some);
                    }
                }
                assert(fingers@ == f.update(j, Some(id)));
            }
            return;
        }
        i = i + 1;
    }
    assert(!exists|j: int| is_first_empty(f, j));
}

/// Computes `pointer_target`.
fn pointer_target_exec(t: CTypeTransformCoordinates, x: u16, y: u16) -> (r: (i32, i32))
    ensures
        r.0 as int == pointer_target(t, x, y).0,
        r.1 as int == pointer_target(t, x, y).1,
{
    let (sx, sy) = if NEEDS_COORDINATE_INVERSION {
        (y, x)
    } else {
        (x, y)
    };
    match t {
        CTypeTransformCoordinates::Ver01 => (sx as i32, DISPLAY_HEIGHT - sy as i32),
        CTypeTransformCoordinates::Ver02 => {
            assert((sx as int) * 720 <= 65535 * 720) by (nonlinear_arith)
                requires sx as int <= 65535;
            let mx = (sx as u32) * (DISPLAY_HEIGHT as u32) / (DISPLAY_WIDTH as u32);
            assert(mx as int <= sx as int * 720);
            let half = (DISPLAY_HEIGHT / 2) as u32;
            let h = DISPLAY_HEIGHT as u32;
            let my: i32 = if (sy as u32) <= h {
                (((h - sy as u32) * half) / h) as i32
            } else {
                -((((sy as u32 - h) * half) / h) as i32)
            };
            proof {
                let n = (sy as int - DISPLAY_HEIGHT) * (DISPLAY_HEIGHT / 2);
                if sy as int <= DISPLAY_HEIGHT {
                    assert(n <= 0) by (nonlinear_arith)
                        requires sy as int <= 720, n == (sy as int - 720) * 360;
                    assert(-n == (h - sy) * half) by (nonlinear_arith)
                        requires n == (sy as int - 720) * 360, h == 720, half == 360;
                } else {
                    assert(n > 0) by (nonlinear_arith)
                        requires sy as int > 720, n == (sy as int - 720) * 360;
                }
            }
            (mx as i32, my)
        },
    }
}

/// Computes `touch_position`.
fn touch_position_exec(x: u16, y: u16) -> (r: (i32, i32))
    ensures
        r.0 as int == touch_position(x, y).0,
        r.1 as int == touch_position(x, y).1,
{
    let (sx, sy) = if NEEDS_COORDINATE_INVERSION {
        (y, x)
    } else {
        (x, y)
    };
    (sx as i32, DISPLAY_HEIGHT - sy as i32)
}

} // verus!
