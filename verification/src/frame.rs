//! Decisions the application takes once per frame: when to autosave, when
//! to make or drop an Auto DJ, when the UI background needs a new render
//! target, and how the library panel opens and closes.
use vstd::prelude::*;
use crate::order::{stable_sort, stably_sorted, KeyOrder};

verus! {

/// Frames between two autosaves.
pub const AUTOSAVE_INTERVAL_FRAMES: usize = 600;

/// The autosave countdown of one frame: at zero the frame saves and the
/// countdown starts again; otherwise it counts down by one.
pub fn autosave_tick(timer: usize) -> (r: (bool, usize))
    ensures
        r.1 == countdown_after(timer as int),
        timer == 0 ==> r == (true, AUTOSAVE_INTERVAL_FRAMES),
        timer > 0 ==> r == (false, (timer - 1) as usize),
{
    if timer == 0 {
        (true, AUTOSAVE_INTERVAL_FRAMES)
    } else {
        (false, timer - 1)
    }
}

/// The countdown after one frame from `timer` (see `autosave_tick`).
pub open spec fn countdown_after(timer: int) -> int {
    if timer == 0 {
        AUTOSAVE_INTERVAL_FRAMES as int
    } else {
        timer - 1
    }
}

/// The countdown after `n` frames from `timer`.
pub open spec fn countdown_after_frames(timer: int, n: nat) -> int
    decreases n,
{
    if n == 0 {
        timer
    } else {
        countdown_after(countdown_after_frames(timer, (n - 1) as nat))
    }
}

proof fn lemma_zero_mod_pair(a: int, b: int, m: int, q: int)
    requires
        m > 0,
        a >= 0,
        b >= 0,
        a + b == m * q,
    ensures
        (a % m == 0) <==> (b % m == 0),
{
    vstd::arithmetic::div_mod::lemma_fundamental_div_mod(a, m);
    vstd::arithmetic::div_mod::lemma_fundamental_div_mod(b, m);
    vstd::arithmetic::div_mod::lemma_mod_bound(a, m);
    vstd::arithmetic::div_mod::lemma_mod_bound(b, m);
    let (qa, qb, ra, rb) = (a / m, b / m, a % m, b % m);
    assert((ra == 0) <==> (rb == 0)) by (nonlinear_arith)
        requires
            a == m * qa + ra,
            b == m * qb + rb,
            0 <= ra < m,
            0 <= rb < m,
            a + b == m * q,
            m > 0,
    {
        if ra == 0 {
            assert(rb == m * (q - qa - qb));
            if q - qa - qb >= 1 {
                assert(m * (q - qa - qb) >= m);
            } else if q - qa - qb <= -1 {
                assert(m * (q - qa - qb) <= -m);
            }
        }
        if rb == 0 {
            assert(ra == m * (q - qa - qb));
            if q - qa - qb >= 1 {
                assert(m * (q - qa - qb) >= m);
            } else if q - qa - qb <= -1 {
                assert(m * (q - qa - qb) <= -m);
            }
        }
    }
}

/// From a countdown at `timer` (at most the interval), the countdown after
/// `n` frames is `(timer + 600 n) mod 601`, that is `timer - n` counted
/// round a cycle of 601 frames: it stays within the interval, and the frames
/// that save (those that find it at zero) are exactly every 601st, the first
/// after `timer` frames.
pub proof fn lemma_autosave_period(timer: int, n: nat)
    requires
        0 <= timer <= AUTOSAVE_INTERVAL_FRAMES,
    ensures
        countdown_after_frames(timer, n) == (timer + AUTOSAVE_INTERVAL_FRAMES as int * n) % (
        AUTOSAVE_INTERVAL_FRAMES as int + 1),
        0 <= countdown_after_frames(timer, n) <= AUTOSAVE_INTERVAL_FRAMES,
        (countdown_after_frames(timer, n) == 0) <==> ((n + AUTOSAVE_INTERVAL_FRAMES as int + 1
            - timer) % (AUTOSAVE_INTERVAL_FRAMES as int + 1) == 0),
    decreases n,
{
    let m = AUTOSAVE_INTERVAL_FRAMES as int + 1;
    let a = timer + 600 * n;
    if n > 0 {
        lemma_autosave_period(timer, (n - 1) as nat);
        let prev = countdown_after_frames(timer, (n - 1) as nat);
        let a0 = timer + 600 * (n - 1);
        assert(a == a0 + 600);
        vstd::arithmetic::div_mod::lemma_add_mod_noop(a0, 600, m);
        vstd::arithmetic::div_mod::lemma_small_mod(600, m as nat);
        assert(a % m == (prev + 600) % m);
        if prev == 0 {
            vstd::arithmetic::div_mod::lemma_small_mod(600, m as nat);
        } else {
            vstd::arithmetic::div_mod::lemma_mod_add_multiples_vanish(prev - 1, m);
            vstd::arithmetic::div_mod::lemma_small_mod((prev - 1) as nat, m as nat);
        }
    } else {
        vstd::arithmetic::div_mod::lemma_small_mod(timer as nat, m as nat);
    }
    vstd::arithmetic::div_mod::lemma_mod_bound(a, m);
    assert(a + (n + m - timer) == m * (n + 1int)) by (nonlinear_arith)
        requires
            m == 601,
            a == timer + 600 * n,
    ;
    lemma_zero_mod_pair(a, n + m - timer, m, n + 1int);
}

/// What to do with an Auto DJ slot after the UI ran.
#[derive(Clone, Copy, Debug, PartialEq, Eq, Structural)]
pub enum AutoDjSlotAction {
    Create,
    Drop,
    Keep,
}

/// An enabled slot without an Auto DJ gets one; a disabled slot with one
/// loses it; otherwise nothing changes.
pub fn auto_dj_slot_action(enabled: bool, present: bool) -> (r: AutoDjSlotAction)
    ensures
        r == (if enabled && !present {
            AutoDjSlotAction::Create
        } else if !enabled && present {
            AutoDjSlotAction::Drop
        } else {
            AutoDjSlotAction::Keep
        }),
{
    if enabled && !present {
        AutoDjSlotAction::Create
    } else if !enabled && present {
        AutoDjSlotAction::Drop
    } else {
        AutoDjSlotAction::Keep
    }
}

/// The UI background needs a new render target unless it has one of the
/// surface's size.
pub fn bg_target_needs_rebuild(current: Option<(u32, u32)>, width: u32, height: u32) -> (r: bool)
    ensures
        r == !(current matches Some((w, h)) && w == width && h == height),
{
    match current {
        Some((w, h)) => !(w == width && h == height),
        None => true,
    }
}

/// Whether the library panel is open, and whether it was opened this frame
/// (so that its search box takes the focus and its contents are reloaded).
#[derive(Clone, Copy, Debug, PartialEq, Eq, Structural)]
pub struct LibraryPanel {
    pub expanded: bool,
    pub newly_opened: bool,
}

/// What the open library panel answered this frame.
#[derive(Clone, Copy, Debug, PartialEq, Eq, Structural)]
pub enum LibraryAnswer {
    /// An item was picked and its node added.
    Added,
    /// The panel asked to close.
    Closed,
    /// Nothing happened.
    Nothing,
}

impl LibraryPanel {
    /// The panel at start-up: closed.
    pub fn new() -> (r: Self)
        ensures
            !r.expanded,
            !r.newly_opened,
    {
        LibraryPanel { expanded: false, newly_opened: false }
    }

    /// The "A" key opens a closed panel.
    pub fn key_a(&mut self)
        ensures
            !old(self).expanded ==> final(self).expanded && final(self).newly_opened,
            old(self).expanded ==> *final(self) == *old(self),
    {
        if !self.expanded {
            self.expanded = true;
            self.newly_opened = true;
        }
    }

    /// The Escape key closes an open panel.
    pub fn key_escape(&mut self)
        ensures
            old(self).expanded ==> !final(self).expanded && !final(self).newly_opened,
            !old(self).expanded ==> *final(self) == *old(self),
    {
        if self.expanded {
            self.expanded = false;
            self.newly_opened = false;
        }
    }

    /// The panel's toggle button opens or closes it.
    pub fn toggle(&mut self)
        ensures
            final(self).expanded == !old(self).expanded,
            final(self).newly_opened == final(self).expanded,
    {
        self.expanded = !self.expanded;
        self.newly_opened = self.expanded;
    }

    /// The open panel answered: the opening is over, and the panel closes
    /// when an item was added or it asked to close.
    pub fn answered(&mut self, answer: LibraryAnswer)
        ensures
            !final(self).newly_opened,
            final(self).expanded == (old(self).expanded && answer == LibraryAnswer::Nothing),
    {
        self.newly_opened = false;
        match answer {
            LibraryAnswer::Added | LibraryAnswer::Closed => {
                self.expanded = false;
            },
            LibraryAnswer::Nothing => {},
        }
    }
}

/// The texture a UI background node painted, under the node's id.
pub struct BgLayer<T> {
    pub node_id: u128,
    pub texture: T,
}

/// Layers are drawn in the order of their nodes' ids, for a stable
/// superposition.
impl<T> KeyOrder for BgLayer<T> {
    open spec fn key_le(a: Self, b: Self) -> bool {
        a.node_id <= b.node_id
    }

    proof fn lemma_key_le_total(a: Self, b: Self) {
    }

    proof fn lemma_key_le_transitive(a: Self, b: Self, c: Self) {
    }

    fn key_le_exec(&self, other: &Self) -> (r: bool) {
        self.node_id <= other.node_id
    }
}

/// The layers of the paint results `(node id, is a UI background node,
/// texture)` that come from UI background nodes, in their order.
pub open spec fn bg_layers_of<T>(results: Seq<(u128, bool, T)>) -> Seq<BgLayer<T>>
    decreases results.len(),
{
    if results.len() == 0 {
        seq![]
    } else {
        let rest = bg_layers_of(results.drop_last());
        let e = results.last();
        if e.1 {
            rest.push(BgLayer { node_id: e.0, texture: e.2 })
        } else {
            rest
        }
    }
}

/// The textures the UI background draws: those painted by UI background
/// nodes, ordered by node id.
pub fn ui_bg_layers<T>(paint_results: Vec<(u128, bool, T)>) -> (r: Vec<BgLayer<T>>)
    ensures
        stably_sorted(bg_layers_of(paint_results@), r@),
{
    let ghost all = paint_results@;
    let mut rest = paint_results;
    let total: usize = rest.len();
    let mut layers: Vec<BgLayer<T>> = Vec::new();
    let mut i: usize = 0;
    while rest.len() > 0
        invariant
            i + rest.len() == all.len(),
            all.len() == total,
            rest@ == all.subrange(i as int, all.len() as int),
            layers@ == bg_layers_of(all.subrange(0, i as int)),
        decreases rest.len(),
    {
        let (node_id, is_ui_bg, texture) = rest.remove(0);
        assert(all.subrange(0, i + 1).drop_last() == all.subrange(0, i as int));
        assert(all.subrange(0, i + 1).last() == all[i as int]);
        if is_ui_bg {
            layers.push(BgLayer { node_id, texture });
        }
        i = i + 1;
    }
    assert(all.subrange(0, i as int) == all);
    stable_sort(layers)
}

} // verus!
