//! Panes and the compositor that owns them.
use crate::canvas;
use crate::coord::RuVec2;
use crate::geom::Viewport;
use crate::paint::clip::{self, Clip};
use crate::paint::swar;
use crate::pixel;
use vstd::prelude::*;

verus! {

/// A handle of a pane, valid until the pane is removed.
#[derive(Clone, Copy, Debug, PartialEq, Eq, Hash, Structural)]
pub struct PaneId(u32);

impl PaneId {
    /// The number of the handle.
    pub closed spec fn number(self) -> int {
        self.0 as int
    }
}

/// The handle of a pane and its place in the stack.
#[derive(Clone, Copy, Debug)]
pub struct PaneKey {
    id: PaneId,
    z: u8,
}

impl PaneKey {
    /// The handle.
    pub closed spec fn id(self) -> PaneId {
        self.id
    }

    /// The place in the stack, modulo 256.
    pub closed spec fn z(self) -> u8 {
        self.z
    }
}

/// A rectangle in relative units: `extent` is half its width and half its height.
#[derive(Clone, Copy, Debug)]
pub struct Pane {
    pub key: PaneKey,
    pub center: RuVec2,
    pub extent: RuVec2,
    pub background: u32,
}

impl Pane {
    /// `p` lies in the pane, edges included.
    pub open spec fn holds(self, p: RuVec2) -> bool {
        &&& -self.extent.x <= p.x - self.center.x <= self.extent.x
        &&& -self.extent.y <= p.y - self.center.y <= self.extent.y
    }

    pub fn id(&self) -> (id: PaneId)
        ensures
            id == self.key.id(),
    {
        self.key.id
    }

    pub fn z(&self) -> (z: u8)
        ensures
            z == self.key.z(),
    {
        self.key.z
    }

    /// `p` lies in the pane, edges included.
    pub fn contains(&self, p: RuVec2) -> (b: bool)
        ensures
            b == self.holds(p),
    {
        let dx: i128 = p.x as i128 - self.center.x as i128;
        let dy: i128 = p.y as i128 - self.center.y as i128;
        let ex: i128 = self.extent.x as i128;
        let ey: i128 = self.extent.y as i128;
        -ex <= dx && dx <= ex && -ey <= dy && dy <= ey
    }

    pub fn min_corner(&self) -> (v: RuVec2)
        requires
            i64::MIN <= self.center.x - self.extent.x <= i64::MAX,
            i64::MIN <= self.center.y - self.extent.y <= i64::MAX,
        ensures
            v.x == self.center.x - self.extent.x,
            v.y == self.center.y - self.extent.y,
    {
        RuVec2 { x: self.center.x - self.extent.x, y: self.center.y - self.extent.y }
    }

    pub fn max_corner(&self) -> (v: RuVec2)
        requires
            i64::MIN <= self.center.x + self.extent.x <= i64::MAX,
            i64::MIN <= self.center.y + self.extent.y <= i64::MAX,
        ensures
            v.x == self.center.x + self.extent.x,
            v.y == self.center.y + self.extent.y,
    {
        RuVec2 { x: self.center.x + self.extent.x, y: self.center.y + self.extent.y }
    }
}

/// The place of the pane with handle `id`, lowest first.
pub open spec fn place_of(panes: Seq<Pane>, id: PaneId, from: int) -> Option<int>
    decreases panes.len() - from,
{
    if from >= panes.len() {
        None
    } else if panes[from].key.id() == id {
        Some(from)
    } else {
        place_of(panes, id, from + 1)
    }
}

/// The pane `p` moved to place `i` of the stack.
pub open spec fn placed(p: Pane, i: int, q: Pane) -> bool {
    &&& q.key.id() == p.key.id()
    &&& q.key.z() == (i % 256) as u8
    &&& q.center == p.center
    &&& q.extent == p.extent
    &&& q.background == p.background
}

/// `b` holds the panes of `a` in the same order, each with the number of its place.
pub open spec fn renumbered(a: Seq<Pane>, b: Seq<Pane>) -> bool {
    a.len() == b.len() && forall|i: int| 0 <= i < a.len() ==> placed(a[i], i, #[trigger] b[i])
}

/// Every pane has the number of its place.
pub open spec fn numbered(panes: Seq<Pane>) -> bool {
    forall|i: int| 0 <= i < panes.len() ==> (#[trigger] panes[i]).key.z() == (i % 256) as u8
}

/// No handle occurs twice.
pub open spec fn unique(panes: Seq<Pane>) -> bool {
    forall|i: int, j: int|
        0 <= i < j < panes.len() ==> (#[trigger] panes[i]).key.id() != (#[trigger] panes[j]).key.id()
}

/// The topmost of the first `n` panes that holds `p`.
pub open spec fn topmost(panes: Seq<Pane>, p: RuVec2, n: int) -> Option<PaneId>
    decreases n,
{
    if n <= 0 {
        None
    } else if panes[n - 1].holds(p) {
        Some(panes[n - 1].key.id())
    } else {
        topmost(panes, p, n - 1)
    }
}

/// The stack with the pane at place `i` on top.
pub open spec fn raised(panes: Seq<Pane>, i: int) -> Seq<Pane> {
    panes.remove(i).push(panes[i])
}

/// The stack with the pane at place `i` at the bottom.
pub open spec fn lowered(panes: Seq<Pane>, i: int) -> Seq<Pane> {
    panes.remove(i).insert(0, panes[i])
}

/// Some pane has the handle.
pub open spec fn present(panes: Seq<Pane>, id: PaneId) -> bool {
    place_of(panes, id, 0) is Some
}

/// The pixel of a pane's background laid over `p`: an opaque background replaces it, any other is
/// mixed in by its opacity.
pub open spec fn pane_px(p: u32, background: u32) -> u32 {
    if pixel::alpha(background) == 255 {
        background
    } else {
        swar::mix_px(p, background, pixel::alpha(background))
    }
}

/// A pane's place in pixels: left, top, width, height.
pub open spec fn pane_rect(v: Viewport, pane: Pane) -> (int, int, int, int) {
    let ex = v.length_px(pane.extent.x as int);
    let ey = v.length_px(pane.extent.y as int);
    (
        v.place_px(v.width_px as int, pane.center.x as int) - ex,
        v.place_px(v.height_px as int, pane.center.y as int) - ey,
        ex + ex,
        ey + ey,
    )
}

/// The buffer after a pane was drawn.
pub open spec fn with_pane(px: Seq<u32>, w: int, h: int, v: Viewport, pane: Pane) -> Seq<u32> {
    let (x, y, rw, rh) = pane_rect(v, pane);
    let (x0, y0, x1, y1) = clip::clipped(Clip::whole(w as usize, h as usize), x, y, rw, rh);
    Seq::new(
        px.len(),
        |i: int|
            if canvas::in_rect(i, w, x0, y0, x1, y1) {
                pane_px(px[i], pane.background)
            } else {
                px[i]
            },
    )
}

/// The buffer after the first `n` panes were drawn, lowest first.
pub open spec fn with_panes(
    px: Seq<u32>,
    w: int,
    h: int,
    v: Viewport,
    panes: Seq<Pane>,
    n: nat,
) -> Seq<u32>
    decreases n,
{
    if n == 0 {
        px
    } else {
        with_pane(with_panes(px, w, h, v, panes, (n - 1) as nat), w, h, v, panes[n - 1])
    }
}

/// The owner of the panes, the focus and the viewport.
pub struct Compositor {
    panes: Vec<Pane>,
    next_id: u32,
    focus: Option<PaneId>,
    view: Viewport,
}

impl Compositor {
    /// The panes, lowest first.
    pub closed spec fn stack(&self) -> Seq<Pane> {
        self.panes@
    }

    /// The number of the next handle.
    pub closed spec fn next_number(&self) -> int {
        self.next_id as int
    }

    /// The pane in focus.
    pub closed spec fn focus_spec(&self) -> Option<PaneId> {
        self.focus
    }

    /// The viewport.
    pub closed spec fn view_spec(&self) -> Viewport {
        self.view
    }

    /// Handles are unique and older than the next one, places are numbered, and the pane in focus is
    /// there.
    pub open spec fn wf(&self) -> bool {
        &&& unique(self.stack())
        &&& numbered(self.stack())
        &&& forall|i: int|
            0 <= i < self.stack().len() ==> (#[trigger] self.stack()[i]).key.id().number()
                < self.next_number()
        &&& self.focus_spec() matches Some(id) ==> present(self.stack(), id)
    }

    pub fn new(viewport: Viewport) -> (c: Compositor)
        ensures
            c.wf(),
            c.stack().len() == 0,
            c.next_number() == 0,
            c.focus_spec() is None,
            c.view_spec() == viewport,
    {
        Compositor { panes: Vec::new(), next_id: 0, focus: None, view: viewport }
    }

    pub fn viewport(&self) -> (v: Viewport)
        ensures
            v == self.view_spec(),
    {
        self.view
    }

    /// Gives the viewport another size. The zoom and the panes stay.
    pub fn resize(&mut self, width_px: u32, height_px: u32)
        ensures
            final(self).view_spec() == (Viewport {
                width_px,
                height_px,
                ru: old(self).view_spec().ru,
            }),
            final(self).stack() == old(self).stack(),
            final(self).next_number() == old(self).next_number(),
            final(self).focus_spec() == old(self).focus_spec(),
    {
        let ru: i64 = self.view.ru;
        self.view = Viewport::new(width_px, height_px).with_ru(ru);
    }

    /// Puts a new pane on top and returns its handle.
    pub fn insert(&mut self, center: RuVec2, extent: RuVec2, background: u32) -> (id: PaneId)
        requires
            old(self).wf(),
            old(self).next_number() < u32::MAX,
        ensures
            final(self).wf(),
            id.number() == old(self).next_number(),
            final(self).next_number() == old(self).next_number() + 1,
            final(self).stack().len() == old(self).stack().len() + 1,
            final(self).stack().drop_last() == old(self).stack(),
            final(self).stack().last().key.id() == id,
            final(self).stack().last().key.z() == (old(self).stack().len() % 256) as u8,
            final(self).stack().last().center == center,
            final(self).stack().last().extent == extent,
            final(self).stack().last().background == background,
            !present(old(self).stack(), id),
            final(self).focus_spec() == old(self).focus_spec(),
            final(self).view_spec() == old(self).view_spec(),
    {
        let ghost before = self.panes@;
        let id = PaneId(self.next_id);
        self.next_id += 1;
        let z: u8 = (self.panes.len() % 256) as u8;
        self.panes.push(Pane { key: PaneKey { id, z }, center, extent, background });
        proof {
            assert(self.panes@.drop_last() =~= before);
            lemma_absent(before, id, 0);
            if self.focus is Some {
                lemma_place_push(before, self.panes@.last(), self.focus->0, 0);
            }
        }
        id
    }

    /// The place of a pane.
    fn find(&self, id: PaneId) -> (p: Option<usize>)
        ensures
            match p {
                None => place_of(self.stack(), id, 0) is None,
                Some(i) => i < self.stack().len() && place_of(self.stack(), id, 0) == Some(i as int),
            },
    {
        let n: usize = self.panes.len();
        let mut i: usize = 0;
        while i < n
            invariant
                i <= n,
                n == self.panes@.len(),
                place_of(self.panes@, id, i as int) == place_of(self.panes@, id, 0),
            decreases n - i,
        {
            if self.panes[i].key.id == id {
                return Some(i);
            }
            i += 1;
        }
        None
    }

    /// Gives every pane the number of its place.
    fn renumber_z(&mut self)
        ensures
            renumbered(old(self).stack(), final(self).stack()),
            final(self).next_number() == old(self).next_number(),
            final(self).focus_spec() == old(self).focus_spec(),
            final(self).view_spec() == old(self).view_spec(),
    {
        let n: usize = self.panes.len();
        let ghost before = self.panes@;
        let mut i: usize = 0;
        while i < n
            invariant
                i <= n,
                n == self.panes@.len(),
                n == before.len(),
                self.next_id == old(self).next_id,
                self.focus == old(self).focus,
                self.view == old(self).view,
                forall|k: int| 0 <= k < i ==> placed(before[k], k, #[trigger] self.panes@[k]),
                forall|k: int| i <= k < n ==> #[trigger] self.panes@[k] == before[k],
            decreases n - i,
        {
            let p = self.panes[i];
            self.panes[i] = Pane {
                key: PaneKey { id: p.key.id, z: (i % 256) as u8 },
                center: p.center,
                extent: p.extent,
                background: p.background,
            };
            i += 1;
        }
    }

    /// Removes a pane; a pane in focus loses it. An unknown handle changes nothing.
    pub fn remove(&mut self, id: PaneId)
        requires
            old(self).wf(),
        ensures
            final(self).wf(),
            match place_of(old(self).stack(), id, 0) {
                None => final(self).stack() == old(self).stack(),
                Some(i) => renumbered(old(self).stack().remove(i), final(self).stack()),
            },
            !present(final(self).stack(), id),
            final(self).focus_spec() == (if old(self).focus_spec() == Some(id) {
                None
            } else {
                old(self).focus_spec()
            }),
            final(self).next_number() == old(self).next_number(),
            final(self).view_spec() == old(self).view_spec(),
    {
        match self.find(id) {
            None => {},
            Some(pos) => {
                let ghost before = self.panes@;
                self.panes.remove(pos);
                let ghost cut = self.panes@;
                self.renumber_z();
                if self.focus == Some(id) {
                    self.focus = None;
                }
                proof {
                    lemma_place(before, id, 0);
                    lemma_renumbered(cut, self.panes@);
                    lemma_removed(before, pos as int, self.panes@, id, self.focus);
                }
            },
        }
    }

    /// The pane with a handle.
    pub fn get(&self, id: PaneId) -> (p: Option<&Pane>)
        ensures
            match p {
                None => !present(self.stack(), id),
                Some(q) => place_of(self.stack(), id, 0) matches Some(i) && *q == self.stack()[i],
            },
    {
        match self.find(id) {
            None => None,
            Some(i) => Some(&self.panes[i]),
        }
    }

    /// The pane with a handle, to be changed.
    pub fn get_mut(&mut self, id: PaneId) -> (p: Option<&mut Pane>)
        ensures
            match p {
                None => {
                    &&& !present(old(self).stack(), id)
                    &&& final(self).stack() == old(self).stack()
                },
                Some(q) => {
                    &&& place_of(old(self).stack(), id, 0) matches Some(i)
                    &&& *q == old(self).stack()[i]
                    &&& final(self).stack() == old(self).stack().update(i, *final(q))
                },
            },
            final(self).next_number() == old(self).next_number(),
            final(self).focus_spec() == old(self).focus_spec(),
            final(self).view_spec() == old(self).view_spec(),
    {
        match self.find(id) {
            None => None,
            Some(i) => Some(&mut self.panes[i]),
        }
    }

    /// The panes, lowest first.
    pub fn iter(&self) -> (s: &[Pane])
        ensures
            s@ == self.stack(),
    {
        self.panes.as_slice()
    }

    pub fn len(&self) -> (n: usize)
        ensures
            n == self.stack().len(),
    {
        self.panes.len()
    }

    pub fn is_empty(&self) -> (b: bool)
        ensures
            b == (self.stack().len() == 0),
    {
        self.panes.len() == 0
    }

    /// The topmost pane that holds `p`.
    pub fn hit_test(&self, p: RuVec2) -> (id: Option<PaneId>)
        ensures
            id == topmost(self.stack(), p, self.stack().len() as int),
    {
        let mut n: usize = self.panes.len();
        while n > 0
            invariant
                n <= self.panes@.len(),
                topmost(self.panes@, p, n as int) == topmost(
                    self.panes@,
                    p,
                    self.panes@.len() as int,
                ),
            decreases n,
        {
            if self.panes[n - 1].contains(p) {
                return Some(self.panes[n - 1].key.id);
            }
            n -= 1;
        }
        None
    }

    /// Moves the focus to a pane. An unknown handle changes nothing.
    pub fn focus(&mut self, id: PaneId)
        requires
            old(self).wf(),
        ensures
            final(self).wf(),
            final(self).focus_spec() == (if present(old(self).stack(), id) {
                Some(id)
            } else {
                old(self).focus_spec()
            }),
            final(self).stack() == old(self).stack(),
            final(self).next_number() == old(self).next_number(),
            final(self).view_spec() == old(self).view_spec(),
    {
        if self.find(id).is_some() {
            self.focus = Some(id);
        }
    }

    pub fn focused(&self) -> (id: Option<PaneId>)
        ensures
            id == self.focus_spec(),
    {
        self.focus
    }

    /// Moves a pane to the top. An unknown handle changes nothing.
    pub fn bring_to_front(&mut self, id: PaneId)
        requires
            old(self).wf(),
        ensures
            final(self).wf(),
            match place_of(old(self).stack(), id, 0) {
                None => final(self).stack() == old(self).stack(),
                Some(i) => renumbered(raised(old(self).stack(), i), final(self).stack()),
            },
            final(self).next_number() == old(self).next_number(),
            final(self).focus_spec() == old(self).focus_spec(),
            final(self).view_spec() == old(self).view_spec(),
    {
        match self.find(id) {
            None => {},
            Some(pos) => {
                let ghost before = self.panes@;
                let pane = self.panes.remove(pos);
                self.panes.push(pane);
                let ghost moved = self.panes@;
                self.renumber_z();
                proof {
                    lemma_place(before, id, 0);
                    assert(moved =~= raised(before, pos as int));
                    lemma_renumbered(moved, self.panes@);
                    lemma_permuted(before, moved, self.panes@, pos as int, true, self.focus);
                }
            },
        }
    }

    /// Moves a pane to the bottom. An unknown handle changes nothing.
    pub fn send_to_back(&mut self, id: PaneId)
        requires
            old(self).wf(),
        ensures
            final(self).wf(),
            match place_of(old(self).stack(), id, 0) {
                None => final(self).stack() == old(self).stack(),
                Some(i) => renumbered(lowered(old(self).stack(), i), final(self).stack()),
            },
            final(self).next_number() == old(self).next_number(),
            final(self).focus_spec() == old(self).focus_spec(),
            final(self).view_spec() == old(self).view_spec(),
    {
        match self.find(id) {
            None => {},
            Some(pos) => {
                let ghost before = self.panes@;
                let pane = self.panes.remove(pos);
                self.panes.insert(0, pane);
                let ghost moved = self.panes@;
                self.renumber_z();
                proof {
                    lemma_place(before, id, 0);
                    assert(moved =~= lowered(before, pos as int));
                    lemma_renumbered(moved, self.panes@);
                    lemma_permuted(before, moved, self.panes@, pos as int, false, self.focus);
                }
            },
        }
    }

    /// Draws every pane into the buffer, lowest first.
    pub fn render(&self, target: &mut [u32], buf_w: usize, buf_h: usize)
        requires
            buf_w * buf_h <= old(target)@.len(),
            self.view_spec().wf(),
        ensures
            final(target)@ == with_panes(
                old(target)@,
                buf_w as int,
                buf_h as int,
                self.view_spec(),
                self.stack(),
                self.stack().len(),
            ),
    {
        let n: usize = self.panes.len();
        let ghost before = target@;
        let mut i: usize = 0;
        while i < n
            invariant
                i <= n,
                n == self.panes@.len(),
                buf_w * buf_h <= target@.len(),
                self.view.wf(),
                target@ == with_panes(
                    before,
                    buf_w as int,
                    buf_h as int,
                    self.view,
                    self.panes@,
                    i as nat,
                ),
            decreases n - i,
        {
            draw_pane(target, buf_w, buf_h, self.view, self.panes[i]);
            i += 1;
        }
    }
}

/// `v` limited to a buffer side.
fn limit(v: i128, side: usize) -> (r: usize)
    ensures
        r as int == clip::clamp_int(v as int, 0, side as int),
{
    if v < 0 {
        0
    } else if v > side as i128 {
        side
    } else {
        v as usize
    }
}

/// Draws one pane.
fn draw_pane(target: &mut [u32], buf_w: usize, buf_h: usize, view: Viewport, pane: Pane)
    requires
        buf_w * buf_h <= old(target)@.len(),
        view.wf(),
    ensures
        final(target)@ == with_pane(old(target)@, buf_w as int, buf_h as int, view, pane),
{
    let ghost before = target@;
    let (cx, cy) = view.ru_to_px(pane.center);
    let ex: i128 = view.ru_to_px_d(pane.extent.x) as i128;
    let ey: i128 = view.ru_to_px_d(pane.extent.y) as i128;
    let x: i128 = cx as i128 - ex;
    let y: i128 = cy as i128 - ey;
    let x0: usize = limit(x, buf_w);
    let y0: usize = limit(y, buf_h);
    let x1: usize = limit(x + (ex + ex), buf_w);
    let y1: usize = limit(y + (ey + ey), buf_h);
    let background: u32 = pane.background;
    let a: u32 = pixel::alpha_of(background);
    proof {
        if buf_w > 0 {
            canvas::lemma_grid(buf_w as int);
        }
        assert(buf_w * y1 <= buf_w * buf_h) by (nonlinear_arith)
            requires
                y1 <= buf_h,
        ;
    }
    let paint = |p: u32, px: usize, py: usize| -> (q: u32)
        ensures
            q == pane_px(p, background),
    {
        if a == 0xFF {
            background
        } else {
            swar::blend_swar(p, background, a as u64)
        }
    };
    canvas::map_rect(target, buf_w, x0, y0, x1, y1, paint);
    assert(target@ =~= with_pane(before, buf_w as int, buf_h as int, view, pane));
}

/// What a place found by handle is.
proof fn lemma_place(panes: Seq<Pane>, id: PaneId, from: int)
    requires
        0 <= from,
    ensures
        match place_of(panes, id, from) {
            None => forall|k: int|
                from <= k < panes.len() ==> (#[trigger] panes[k]).key.id() != id,
            Some(i) => from <= i < panes.len() && panes[i].key.id() == id,
        },
    decreases panes.len() - from,
{
    if from < panes.len() && panes[from].key.id() != id {
        lemma_place(panes, id, from + 1);
    }
}

/// A pane with the handle is found.
proof fn lemma_found(panes: Seq<Pane>, id: PaneId, from: int, at: int)
    requires
        0 <= from <= at < panes.len(),
        panes[at].key.id() == id,
    ensures
        place_of(panes, id, from) is Some,
    decreases at - from,
{
    if panes[from].key.id() != id {
        lemma_found(panes, id, from + 1, at);
    }
}

/// A handle that no pane has is not found.
proof fn lemma_absent(panes: Seq<Pane>, id: PaneId, from: int)
    requires
        0 <= from,
        forall|k: int| from <= k < panes.len() ==> (#[trigger] panes[k]).key.id() != id,
    ensures
        place_of(panes, id, from) is None,
    decreases panes.len() - from,
{
    if from < panes.len() {
        lemma_absent(panes, id, from + 1);
    }
}

/// What is found in a stack is found with one pane more.
proof fn lemma_place_push(panes: Seq<Pane>, p: Pane, id: PaneId, from: int)
    requires
        0 <= from,
        place_of(panes, id, from) is Some,
    ensures
        place_of(panes.push(p), id, from) is Some,
{
    lemma_place(panes, id, from);
    let i = place_of(panes, id, from)->0;
    assert(panes.push(p)[i] == panes[i]);
    lemma_found(panes.push(p), id, from, i);
}

/// Renumbering keeps the handles.
proof fn lemma_renumbered(a: Seq<Pane>, b: Seq<Pane>)
    requires
        renumbered(a, b),
    ensures
        numbered(b),
        forall|i: int| 0 <= i < a.len() ==> (#[trigger] b[i]).key.id() == a[i].key.id(),
{
    assert forall|i: int| 0 <= i < a.len() implies (#[trigger] b[i]).key.id() == a[i].key.id() by {
        assert(placed(a[i], i, b[i]));
    }
    assert forall|i: int| 0 <= i < b.len() implies (#[trigger] b[i]).key.z() == (i % 256) as u8 by {
        assert(placed(a[i], i, b[i]));
    }
}

/// A stack without one of its panes: handles stay unique, the handle is gone, others are still found.
proof fn lemma_removed(
    before: Seq<Pane>,
    pos: int,
    after: Seq<Pane>,
    id: PaneId,
    focus: Option<PaneId>,
)
    requires
        unique(before),
        0 <= pos < before.len(),
        before[pos].key.id() == id,
        renumbered(before.remove(pos), after),
        focus matches Some(f) ==> f != id && present(before, f),
    ensures
        unique(after),
        !present(after, id),
        focus matches Some(f) ==> present(after, f),
        forall|i: int|
            0 <= i < after.len() ==> (#[trigger] after[i]).key.id() == before[if i < pos {
                i
            } else {
                i + 1
            }].key.id(),
{
    let cut = before.remove(pos);
    assert forall|i: int| 0 <= i < after.len() implies (#[trigger] after[i]).key.id() == before[
    if i < pos {
        i
    } else {
        i + 1
    }].key.id() by {
        assert(placed(cut[i], i, after[i]));
    }
    lemma_absent(after, id, 0);
    if focus is Some {
        let f = focus->0;
        lemma_place(before, f, 0);
        let k = place_of(before, f, 0)->0;
        assert(k != pos);
        let at = if k < pos {
            k
        } else {
            k - 1
        };
        assert(after[at].key.id() == f);
        lemma_found(after, f, 0, at);
    }
}

/// A stack with one pane moved to an end: handles stay unique and are still found.
proof fn lemma_permuted(
    before: Seq<Pane>,
    moved: Seq<Pane>,
    after: Seq<Pane>,
    pos: int,
    up: bool,
    focus: Option<PaneId>,
)
    requires
        unique(before),
        0 <= pos < before.len(),
        moved == (if up {
            raised(before, pos)
        } else {
            lowered(before, pos)
        }),
        renumbered(moved, after),
        focus matches Some(f) ==> present(before, f),
    ensures
        unique(after),
        focus matches Some(f) ==> present(after, f),
        forall|i: int|
            0 <= i < after.len() ==> (#[trigger] after[i]).key.id() == before[origin(
                i,
                pos,
                before.len() as int,
                up,
            )].key.id(),
        forall|i: int| 0 <= i < after.len() ==> 0 <= #[trigger] origin(
            i,
            pos,
            before.len() as int,
            up,
        ) < before.len(),
{
    let n = before.len() as int;
    assert forall|i: int| 0 <= i < after.len() implies (#[trigger] after[i]).key.id() == before[
    origin(i, pos, n, up)].key.id() by {
        assert(placed(moved[i], i, after[i]));
    }
    assert forall|i: int, j: int| 0 <= i < j < after.len() implies (#[trigger] after[i]).key.id()
        != (#[trigger] after[j]).key.id() by {
        let a = origin(i, pos, n, up);
        let b = origin(j, pos, n, up);
        if a < b {
            assert(before[a].key.id() != before[b].key.id());
        } else {
            assert(before[b].key.id() != before[a].key.id());
        }
    }
    if focus is Some {
        let f = focus->0;
        lemma_place(before, f, 0);
        let k = place_of(before, f, 0)->0;
        let at = if k == pos {
            if up {
                n - 1
            } else {
                0
            }
        } else if k < pos {
            if up {
                k
            } else {
                k + 1
            }
        } else {
            if up {
                k - 1
            } else {
                k
            }
        };
        assert(origin(at, pos, n, up) == k);
        assert(after[at].key.id() == f);
        lemma_found(after, f, 0, at);
    }
}

/// Where the pane at place `i` was before the pane at `pos` was moved to an end.
pub open spec fn origin(i: int, pos: int, n: int, up: bool) -> int {
    if up {
        if i == n - 1 {
            pos
        } else if i < pos {
            i
        } else {
            i + 1
        }
    } else {
        if i == 0 {
            pos
        } else if i <= pos {
            i - 1
        } else {
            i
        }
    }
}

/// A pane that holds a point is hit there once it is on top.
pub proof fn law_raised_pane_is_hit(before: Seq<Pane>, after: Seq<Pane>, i: int, p: RuVec2)
    requires
        0 <= i < before.len(),
        before[i].holds(p),
        renumbered(raised(before, i), after),
    ensures
        topmost(after, p, after.len() as int) == Some(before[i].key.id()),
{
    let n = after.len() as int;
    assert(placed(raised(before, i)[n - 1], n - 1, after[n - 1]));
}

/// A hit names a pane that holds the point, and no pane above it does.
pub proof fn law_hit_is_topmost(panes: Seq<Pane>, p: RuVec2, n: int)
    requires
        0 <= n <= panes.len(),
    ensures
        match topmost(panes, p, n) {
            None => forall|k: int| 0 <= k < n ==> !(#[trigger] panes[k]).holds(p),
            Some(id) => exists|k: int|
                0 <= k < n && (#[trigger] panes[k]).key.id() == id && panes[k].holds(p) && forall|j: int|
                    k < j < n ==> !(#[trigger] panes[j]).holds(p),
        },
    decreases n,
{
    if n > 0 {
        if panes[n - 1].holds(p) {
            assert(panes[n - 1].key.id() == topmost(panes, p, n)->0);
        } else {
            law_hit_is_topmost(panes, p, n - 1);
            if topmost(panes, p, n - 1) is Some {
                let k = choose|k: int|
                    0 <= k < n - 1 && (#[trigger] panes[k]).key.id() == topmost(panes, p, n - 1)->0
                        && panes[k].holds(p) && forall|j: int|
                        k < j < n - 1 ==> !(#[trigger] panes[j]).holds(p);
                assert(panes[k].key.id() == topmost(panes, p, n)->0);
                assert forall|j: int| k < j < n implies !(#[trigger] panes[j]).holds(p) by {}
            }
        }
    }
}

/// Moving a pane to the front or the back and looking it up gives the same pane, at the end of the
/// stack.
pub proof fn law_moved_pane_is_at_the_end(before: Seq<Pane>, after: Seq<Pane>, i: int, up: bool)
    requires
        0 <= i < before.len(),
        renumbered(
            if up {
                raised(before, i)
            } else {
                lowered(before, i)
            },
            after,
        ),
    ensures
        ({
            let end = if up {
                before.len() - 1
            } else {
                0
            };
            placed(before[i], end, after[end])
        }),
{
    let moved = if up {
        raised(before, i)
    } else {
        lowered(before, i)
    };
    let end = if up {
        before.len() - 1
    } else {
        0
    };
    assert(placed(moved[end], end, after[end]));
}

/// An opaque pane on top of the stack is seen wherever it lies, whatever is below it.
pub proof fn law_top_pane_is_seen(
    px: Seq<u32>,
    w: int,
    h: int,
    v: Viewport,
    panes: Seq<Pane>,
    i: int,
)
    requires
        panes.len() > 0,
        pixel::alpha(panes.last().background) == 255,
        0 <= i < px.len(),
        ({
            let (x, y, rw, rh) = pane_rect(v, panes.last());
            let (x0, y0, x1, y1) = clip::clipped(
                Clip::whole(w as usize, h as usize),
                x,
                y,
                rw,
                rh,
            );
            canvas::in_rect(i, w, x0, y0, x1, y1)
        }),
    ensures
        with_panes(px, w, h, v, panes, panes.len())[i] == panes.last().background,
{
    lemma_panes_len(px, w, h, v, panes, (panes.len() - 1) as nat);
}

/// Drawing panes keeps the size of the buffer.
proof fn lemma_panes_len(px: Seq<u32>, w: int, h: int, v: Viewport, panes: Seq<Pane>, n: nat)
    ensures
        with_panes(px, w, h, v, panes, n).len() == px.len(),
    decreases n,
{
    if n > 0 {
        lemma_panes_len(px, w, h, v, panes, (n - 1) as nat);
    }
}

/// A pane reaches as far left and right of its centre's column as its horizontal extent is long in
/// pixels, and as far above and below its centre's row as its vertical extent is. There its background
/// lies over what was drawn before, and nowhere else.
pub proof fn law_pane_spans_its_extents(
    px: Seq<u32>,
    w: usize,
    h: usize,
    v: Viewport,
    pane: Pane,
    x: int,
    y: int,
)
    requires
        0 <= x < w,
        0 <= y < h,
        w * h <= px.len(),
    ensures
        ({
            let column = v.place_px(v.width_px as int, pane.center.x as int);
            let row = v.place_px(v.height_px as int, pane.center.y as int);
            let across = v.length_px(pane.extent.x as int);
            let along = v.length_px(pane.extent.y as int);
            with_pane(px, w as int, h as int, v, pane)[y * w + x] == (if -across <= x - column
                < across && -along <= y - row < along {
                pane_px(px[y * w + x], pane.background)
            } else {
                px[y * w + x]
            })
        }),
{
    canvas::lemma_cell(x, y, w as int);
    canvas::lemma_cell_bound(x, y, w as int, h as int);
}

/// A wider pane covers more columns and no other rows, a taller one more rows and no other columns:
/// growing the horizontal extent leaves the pixels above and below alone, and growing the vertical
/// extent those to the left and right.
pub proof fn law_extents_grow_one_way(
    px: Seq<u32>,
    w: usize,
    h: usize,
    v: Viewport,
    pane: Pane,
    grown: Pane,
    wider: bool,
    x: int,
    y: int,
)
    requires
        0 <= x < w,
        0 <= y < h,
        w * h <= px.len(),
        grown.center == pane.center,
        grown.background == pane.background,
        wider ==> grown.extent.y == pane.extent.y,
        !wider ==> grown.extent.x == pane.extent.x,
        ({
            let far = if wider {
                y - v.place_px(v.height_px as int, pane.center.y as int)
            } else {
                x - v.place_px(v.width_px as int, pane.center.x as int)
            };
            let reach = if wider {
                v.length_px(pane.extent.y as int)
            } else {
                v.length_px(pane.extent.x as int)
            };
            !(-reach <= far < reach)
        }),
    ensures
        with_pane(px, w as int, h as int, v, grown)[y * w + x] == px[y * w + x],
        with_pane(px, w as int, h as int, v, pane)[y * w + x] == px[y * w + x],
{
    law_pane_spans_its_extents(px, w, h, v, pane, x, y);
    law_pane_spans_its_extents(px, w, h, v, grown, x, y);
}

/// Drawing and pointing agree: the pixel of a point that a pane holds lies on the rectangle that the
/// pane is drawn as, or within a pixel of it. The pixels have to be within the range of `isize`.
pub proof fn law_held_point_is_drawn(v: Viewport, pane: Pane, p: RuVec2)
    requires
        v.scale() >= 0,
        pane.holds(p),
        isize::MIN < v.place_px(v.width_px as int, pane.center.x as int) < isize::MAX,
        isize::MIN < v.place_px(v.height_px as int, pane.center.y as int) < isize::MAX,
        v.length_px(pane.extent.x as int) < isize::MAX,
        v.length_px(pane.extent.y as int) < isize::MAX,
    ensures
        ({
            let (x, y, rw, rh) = pane_rect(v, pane);
            &&& x - 1 <= v.place_px(v.width_px as int, p.x as int) <= x + rw + 1
            &&& y - 1 <= v.place_px(v.height_px as int, p.y as int) <= y + rh + 1
        }),
{
    lemma_held_side(
        v,
        v.width_px as int,
        pane.center.x as int,
        pane.extent.x as int,
        p.x as int,
    );
    lemma_held_side(
        v,
        v.height_px as int,
        pane.center.y as int,
        pane.extent.y as int,
        p.y as int,
    );
}

/// On one axis, a place no further from `c` than `e` is drawn no further from it, up to a pixel.
proof fn lemma_held_side(v: Viewport, side: int, c: int, e: int, p: int)
    requires
        v.scale() >= 0,
        side >= 0,
        -e <= p - c <= e,
        isize::MIN < v.place_px(side, c) < isize::MAX,
        v.length_px(e) < isize::MAX,
    ensures
        v.place_px(side, c) - v.length_px(e) - 1 <= v.place_px(side, p) <= v.place_px(side, c)
            + v.length_px(e) + 1,
{
    let s = v.scale();
    let den = 0x1_0000_0000_0000int;
    let at = side * 0x8000_0000_0000 + c * s;
    let far = e * s;
    let it = side * 0x8000_0000_0000 + p * s;
    assert(at - far <= it && it <= at + far && far >= 0) by (nonlinear_arith)
        requires
            at == side * 0x8000_0000_0000 + c * s,
            far == e * s,
            it == side * 0x8000_0000_0000 + p * s,
            -e <= p - c <= e,
            s >= 0,
    ;
    crate::coord::lemma_truncated_order(at - far, it, den);
    crate::coord::lemma_truncated_order(it, at + far, den);
    crate::coord::lemma_truncated_sum(at, far, den);
    crate::coord::lemma_truncated_sum(at, -far, den);
    crate::coord::lemma_truncated(far, den);
}

/// An opaque pane on top of the stack shows its background at every pixel that its extents reach.
pub proof fn law_top_pane_shows_its_background(
    px: Seq<u32>,
    w: usize,
    h: usize,
    v: Viewport,
    panes: Seq<Pane>,
    x: int,
    y: int,
)
    requires
        panes.len() > 0,
        pixel::alpha(panes.last().background) == 255,
        0 <= x < w,
        0 <= y < h,
        w * h <= px.len(),
        ({
            let pane = panes.last();
            let column = v.place_px(v.width_px as int, pane.center.x as int);
            let row = v.place_px(v.height_px as int, pane.center.y as int);
            let across = v.length_px(pane.extent.x as int);
            let along = v.length_px(pane.extent.y as int);
            -across <= x - column < across && -along <= y - row < along
        }),
    ensures
        with_panes(px, w as int, h as int, v, panes, panes.len())[y * w + x]
            == panes.last().background,
{
    let below = with_panes(px, w as int, h as int, v, panes, (panes.len() - 1) as nat);
    lemma_panes_len(px, w as int, h as int, v, panes, (panes.len() - 1) as nat);
    law_pane_spans_its_extents(below, w, h, v, panes.last(), x, y);
}

} // verus!
