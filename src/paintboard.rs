//! The canvas cache, the desired-state queue and the board that ties them
//! together.
//!
//! Cells are addressed `(x, y)`: in a board snapshot, line `x` holds the cells
//! `(x, 0)`, `(x, 1)`, ... from left to right.
use crate::config::Config;
use crate::node::NodeOpt;
use crate::ScriptError;
use crate::{digit_value, from_32};
use std::collections::VecDeque;
use std::sync::Arc;
use vstd::prelude::*;
use vstd::string::StringSliceAdditionalSpecFns;
use vstd::utf8::encode_utf8;

verus! {

/// Attempts made for one board snapshot before the refresh is skipped.
pub const SNAPSHOT_ATTEMPTS: usize = 3;

/// Seconds between two board snapshots.
pub const REFRESH_INTERVAL_SECS: u64 = 120;

/// The subscription sent on each new stream connection.
pub const SUBSCRIBE_MESSAGE: &'static str = "{\"type\":\"join_channel\",\"channel\":\"paintboard\"}";

/// A grid of cells, each a color or `None` for unknown.
pub type Grid = Seq<Seq<Option<usize>>>;

/// The cell at `(x, y)`; `None` outside the grid.
pub open spec fn cell_of(g: Grid, x: int, y: int) -> Option<usize> {
    if 0 <= x < g.len() && 0 <= y < g[x].len() {
        g[x][y]
    } else {
        None
    }
}

/// The grid with the cell at `(x, y)` set to `c`; unchanged outside the grid.
pub open spec fn set_cell(g: Grid, x: int, y: int, c: Option<usize>) -> Grid {
    if 0 <= x < g.len() && 0 <= y < g[x].len() {
        g.update(x, g[x].update(y, c))
    } else {
        g
    }
}

/// A `width` by `height` grid whose every cell is `c`.
pub open spec fn uniform(width: nat, height: nat, c: Option<usize>) -> Grid {
    Seq::new(width, |i: int| Seq::new(height, |j: int| c))
}

/// A grid of observed or desired colors.
pub struct ColorArray {
    array: Vec<Vec<Option<usize>>>,
}

impl View for ColorArray {
    type V = Grid;

    closed spec fn view(&self) -> Grid {
        self.array@.map_values(|r: Vec<Option<usize>>| r@)
    }
}

impl ColorArray {
    fn filled(width: usize, height: usize, c: Option<usize>) -> (r: ColorArray)
        ensures
            r@ == uniform(width as nat, height as nat, c),
    {
        let mut array: Vec<Vec<Option<usize>>> = Vec::new();
        let mut i: usize = 0;
        while i < width
            invariant
                i <= width,
                array@.len() == i,
                forall|k: int| 0 <= k < i ==> (#[trigger] array@[k])@ == Seq::new(height as nat, |j: int| c),
            decreases width - i,
        {
            let mut row: Vec<Option<usize>> = Vec::new();
            let mut j: usize = 0;
            while j < height
                invariant
                    j <= height,
                    row@ == Seq::new(j as nat, |t: int| c),
                decreases height - j,
            {
                row.push(c);
                j = j + 1;
                assert(row@ =~= Seq::new(j as nat, |t: int| c));
            }
            array.push(row);
            i = i + 1;
        }
        let r = ColorArray { array };
        assert(r@ =~= uniform(width as nat, height as nat, c));
        r
    }

    /// A board of the configured size, every cell holding color 1.
    pub fn new(config: Arc<Config>) -> (r: ColorArray)
        ensures
            r@ == uniform(config.board_width as nat, config.board_height as nat, Some(1)),
    {
        ColorArray::filled(config.board_width, config.board_height, Some(1))
    }

    pub fn color(&self, x: usize, y: usize) -> (r: Option<usize>)
        ensures
            r == cell_of(self@, x as int, y as int),
    {
        if x < self.array.len() && y < self.array[x].len() {
            self.array[x][y]
        } else {
            None
        }
    }

    /// Sets the cell at `(x, y)`; a position outside the grid is ignored.
    pub fn set_color(&mut self, x: usize, y: usize, color: Option<usize>)
        ensures
            final(self)@ == set_cell(old(self)@, x as int, y as int, color),
    {
        if x < self.array.len() && y < self.array[x].len() {
            let mut row: Vec<Option<usize>> = Vec::new();
            std::mem::swap(&mut row, &mut self.array[x]);
            row.set(y, color);
            std::mem::swap(&mut row, &mut self.array[x]);
            assert(self@ =~= set_cell(old(self)@, x as int, y as int, color));
        }
    }
}

} // verus!

verus! {

/// `(x, y)` needs no paint: no color is desired there, or the observed color
/// is the desired one.
pub open spec fn converged(design: Grid, canvas: Grid, x: int, y: int) -> bool {
    match cell_of(design, x, y) {
        None => true,
        Some(c) => cell_of(canvas, x, y) == Some(c),
    }
}

/// The queue without the converged entries at its head.
pub open spec fn skip_converged(q: Seq<NodeOpt>, design: Grid, canvas: Grid) -> Seq<NodeOpt>
    decreases q.len(),
{
    if q.len() > 0 && converged(design, canvas, q[0].x as int, q[0].y as int) {
        skip_converged(q.drop_first(), design, canvas)
    } else {
        q
    }
}

/// The entry handed out next, and the queue left behind.
pub open spec fn take_target(q: Seq<NodeOpt>, design: Grid, canvas: Grid) -> (Option<NodeOpt>, Seq<NodeOpt>) {
    let r = skip_converged(q, design, canvas);
    if r.len() == 0 {
        (None, r)
    } else {
        (Some(r[0]), r.drop_first())
    }
}

/// The desired colors laid down by the first `n` entries of `list` on a
/// `width` by `height` board; a later entry for a position wins.
pub open spec fn design_of(list: Seq<NodeOpt>, n: nat, width: nat, height: nat) -> Grid
    decreases n,
{
    if n == 0 || n > list.len() {
        uniform(width, height, None)
    } else {
        let e = list[n - 1];
        set_cell(design_of(list, (n - 1) as nat, width, height), e.x as int, e.y as int, Some(e.color))
    }
}

/// The desired state: the entries still to be painted, in order, and the
/// desired color of each position.
pub struct TargetList {
    targets: VecDeque<NodeOpt>,
    array: ColorArray,
}

impl TargetList {
    /// The queued entries.
    pub closed spec fn queue(&self) -> Seq<NodeOpt> {
        self.targets@
    }

    /// The desired color of each position.
    pub closed spec fn design(&self) -> Grid {
        self.array@
    }

    /// The desired state of `list`, all of whose entries are queued.
    pub fn new(config: Arc<Config>, list: VecDeque<NodeOpt>) -> (r: TargetList)
        ensures
            r.queue() == list@,
            r.design() == design_of(list@, list@.len(), config.board_width as nat, config.board_height as nat),
    {
        let w = config.board_width;
        let h = config.board_height;
        let mut array = ColorArray::filled(w, h, None);
        let mut i: usize = 0;
        while i < list.len()
            invariant
                i <= list@.len(),
                array@ == design_of(list@, i as nat, w as nat, h as nat),
            decreases list@.len() - i,
        {
            let node = list[i];
            array.set_color(node.x, node.y, Some(node.color));
            i = i + 1;
        }
        TargetList { targets: list, array }
    }

    /// Whether `(x, y)` needs no paint, given the observed `canvas`.
    fn settled(&self, canvas: &ColorArray, x: usize, y: usize) -> (r: bool)
        ensures
            r == converged(self.design(), canvas@, x as int, y as int),
    {
        match self.array.color(x, y) {
            Some(color) => {
                let current = canvas.color(x, y);
                current.is_some() && current.unwrap() == color
            },
            None => true,
        }
    }

    /// Hands out the next entry that still needs paint, dropping the converged
    /// entries ahead of it; `None` when there is none.
    pub fn get_target(&mut self, canvas: &ColorArray) -> (r: Option<NodeOpt>)
        ensures
            (r, final(self).queue()) == take_target(old(self).queue(), old(self).design(), canvas@),
            final(self).design() == old(self).design(),
            r matches Some(n) ==> !converged(old(self).design(), canvas@, n.x as int, n.y as int),
    {
        loop
            invariant
                self.design() == old(self).design(),
                skip_converged(self.queue(), self.design(), canvas@)
                    == skip_converged(old(self).queue(), old(self).design(), canvas@),
            decreases self.queue().len(),
        {
            if self.targets.len() == 0 {
                return None;
            }
            let node = self.targets[0];
            let done = self.settled(canvas, node.x, node.y);
            let ghost q = self.queue();
            self.targets.pop_front();
            assert(self.queue() =~= q.drop_first());
            if !done {
                return Some(node);
            }
        }
    }

    /// Whether nothing is left to paint.
    pub fn queue_empty(&self) -> (r: bool)
        ensures
            r == (self.queue().len() == 0),
    {
        self.targets.len() == 0
    }

    /// The desired color at `(x, y)`.
    pub fn color(&self, x: usize, y: usize) -> (r: Option<usize>)
        ensures
            r == cell_of(self.design(), x as int, y as int),
    {
        self.array.color(x, y)
    }

    /// Queues `(x, y)` again with its desired color; a position with no
    /// desired color is not queued.
    pub fn add_list(&mut self, x: usize, y: usize)
        ensures
            final(self).design() == old(self).design(),
            final(self).queue() == match cell_of(old(self).design(), x as int, y as int) {
                Some(c) => old(self).queue().push(NodeOpt { x, y, color: c }),
                None => old(self).queue(),
            },
    {
        match self.array.color(x, y) {
            Some(color) => {
                self.targets.push_back(NodeOpt { x, y, color });
            },
            None => {},
        }
    }
}

} // verus!

verus! {

/// The observed colors, the desired colors and the queue of entries to paint.
pub type BoardView = (Grid, Grid, Seq<NodeOpt>);

/// The two grids have the same lines, of the same lengths.
pub open spec fn same_shape(a: Grid, b: Grid) -> bool {
    &&& a.len() == b.len()
    &&& forall|i: int| 0 <= i < a.len() ==> (#[trigger] a[i]).len() == b[i].len()
}

/// The board after the cell at `(x, y)` is observed as `c`: a position that
/// then needs paint is queued again with its desired color.
pub open spec fn paint_set(b: BoardView, x: usize, y: usize, c: Option<usize>) -> BoardView {
    let canvas = set_cell(b.0, x as int, y as int, c);
    if converged(b.1, canvas, x as int, y as int) {
        (canvas, b.1, b.2)
    } else {
        (canvas, b.1, b.2.push(NodeOpt { x, y, color: cell_of(b.1, x as int, y as int)->0 }))
    }
}

/// The board, line and column after the first `n` bytes of a snapshot body:
/// a line feed starts the next line; a color digit sets its cell and moves one
/// column on; any other character only moves one column on. Columns count
/// characters: a UTF-8 continuation byte does not start a new one.
pub open spec fn snapshot_scan(b: BoardView, body: Seq<u8>, n: nat) -> (BoardView, nat, nat)
    decreases n,
{
    if n == 0 || n > body.len() {
        (b, 0, 0)
    } else {
        let (bv, x, y) = snapshot_scan(b, body, (n - 1) as nat);
        let c = body[n - 1];
        if c == 0x0a {
            (bv, x + 1, 0)
        } else if is_continuation(c) {
            (bv, x, y)
        } else if digit_value(c as char) is Some {
            (paint_set(bv, x as usize, y as usize, Some(digit_value(c as char)->0 as usize)), x, y + 1)
        } else {
            (bv, x, y + 1)
        }
    }
}

/// A byte inside a UTF-8 encoded character, after its first.
pub open spec fn is_continuation(c: u8) -> bool {
    0x80 <= c && c < 0xc0
}

/// The board after a whole snapshot body is applied.
pub open spec fn snapshot_applied(b: BoardView, body: Seq<u8>) -> BoardView {
    snapshot_scan(b, body, body.len()).0
}

/// The color that a paint attempt of `node` leaves observed: its own color on
/// success, unknown on failure.
pub open spec fn paint_result_color(node: NodeOpt, outcome: Result<(), ScriptError>) -> Option<usize> {
    match outcome {
        Ok(()) => Some(node.color),
        Err(_) => None,
    }
}

/// The canvas and the desired state together.
pub struct PaintBoard {
    pub color: ColorArray,
    pub targets: TargetList,
}

impl PaintBoard {
    pub open spec fn model(&self) -> BoardView {
        (self.color@, self.targets.design(), self.targets.queue())
    }

    /// The canvas and the desired colors cover the same positions.
    pub open spec fn wf(&self) -> bool {
        same_shape(self.color@, self.targets.design())
    }

    /// A board of the configured size, all cells observed as color 1, whose
    /// desired state is `list`.
    pub fn new(config: Arc<Config>, list: VecDeque<NodeOpt>) -> (r: PaintBoard)
        ensures
            r.wf(),
            r.model() == (
                uniform(config.board_width as nat, config.board_height as nat, Some(1)),
                design_of(list@, list@.len(), config.board_width as nat, config.board_height as nat),
                list@,
            ),
    {
        let color = ColorArray::new(config.clone());
        let targets = TargetList::new(config, list);
        let r = PaintBoard { color, targets };
        proof {
            lemma_design_shape(list@, list@.len(), config.board_width as nat, config.board_height as nat);
        }
        r
    }

    /// Hands out the next entry that still needs paint.
    pub fn get_update(&mut self) -> (r: Option<NodeOpt>)
        ensures
            final(self).wf() == old(self).wf(),
            (r, final(self).model().2) == take_target(old(self).model().2, old(self).model().1, old(self).model().0),
            final(self).model().0 == old(self).model().0,
            final(self).model().1 == old(self).model().1,
    {
        self.targets.get_target(&self.color)
    }

    /// Whether `(x, y)` needs no paint.
    pub fn check(&self, x: usize, y: usize) -> (r: bool)
        ensures
            r == converged(self.model().1, self.model().0, x as int, y as int),
    {
        self.targets.settled(&self.color, x, y)
    }

    /// Records the observed color at `(x, y)`, queueing the position again when
    /// it then differs from the desired color.
    pub fn set_color(&mut self, x: usize, y: usize, color: Option<usize>)
        ensures
            final(self).model() == paint_set(old(self).model(), x, y, color),
            final(self).wf() == old(self).wf(),
    {
        proof {
            lemma_paint_set_shape(self.model(), x, y, color);
        }
        self.color.set_color(x, y, color);
        if !self.check(x, y) {
            self.targets.add_list(x, y);
        }
    }

    /// Applies a full snapshot body: character `y` of line `x` is the digit
    /// of cell `(x, y)`.
    pub fn apply_snapshot(&mut self, body: &str)
        ensures
            final(self).model() == snapshot_applied(old(self).model(), body.spec_bytes()),
            final(self).wf() == old(self).wf(),
    {
        let b = body.as_bytes();
        let mut x: usize = 0;
        let mut y: usize = 0;
        let mut i: usize = 0;
        while i < b.len()
            invariant
                i <= b@.len(),
                b@ == body.spec_bytes(),
                x <= i,
                y <= i,
                (self.model(), x as nat, y as nat) == snapshot_scan(old(self).model(), b@, i as nat),
                self.wf() == old(self).wf(),
            decreases b@.len() - i,
        {
            let c = b[i];
            let ch = c as char;
            if c == 0x0a {
                x = x + 1;
                y = 0;
            } else if 0x80 <= c && c < 0xc0 {
            } else if ('0' <= ch && ch <= '9') || ('a' <= ch && ch <= 'w') {
                let v = from_32(ch);
                self.set_color(x, y, Some(v));
                y = y + 1;
            } else {
                y = y + 1;
            }
            i = i + 1;
        }
    }

    /// Records how a paint attempt of `node` ended: on success its color is
    /// taken as observed at once; on failure the cell becomes unknown, so the
    /// position is queued again.
    pub fn record_paint(&mut self, node: NodeOpt, outcome: &Result<(), ScriptError>)
        ensures
            final(self).model() == paint_set(old(self).model(), node.x, node.y, paint_result_color(node, *outcome)),
            final(self).wf() == old(self).wf(),
    {
        match outcome {
            Ok(()) => self.set_color(node.x, node.y, Some(node.color)),
            Err(_) => self.set_color(node.x, node.y, None),
        }
    }

    /// Applies the result of a snapshot request; a failed request (`None`)
    /// changes nothing.
    pub fn refresh_board(&mut self, raw_board: Option<String>)
        ensures
            final(self).model() == match raw_board {
                Some(s) => snapshot_applied(old(self).model(), encode_utf8(s@)),
                None => old(self).model(),
            },
            final(self).wf() == old(self).wf(),
    {
        match raw_board {
            Some(raw) => self.apply_snapshot(raw.as_str()),
            None => {},
        }
    }
}

} // verus!

verus! {

proof fn lemma_skip_head_unconverged(q: Seq<NodeOpt>, design: Grid, canvas: Grid)
    ensures
        ({
            let r = skip_converged(q, design, canvas);
            r.len() > 0 ==> !converged(design, canvas, r[0].x as int, r[0].y as int)
        }),
    decreases q.len(),
{
    if q.len() > 0 && converged(design, canvas, q[0].x as int, q[0].y as int) {
        lemma_skip_head_unconverged(q.drop_first(), design, canvas);
    }
}

/// A position whose observed color is the desired one is never handed out.
pub proof fn lemma_converged_never_handed_out(b: BoardView, x: usize, y: usize)
    requires
        converged(b.1, b.0, x as int, y as int),
    ensures
        take_target(b.2, b.1, b.0).0 matches Some(n) ==> !(n.x == x && n.y == y),
{
    lemma_skip_head_unconverged(b.2, b.1, b.0);
}

/// Once a paint of an entry with the desired color succeeds, that position is
/// not handed out again while its observed color stays the desired one: not
/// by the next request, nor by any later one made on a board where the cell
/// still holds that color.
pub proof fn lemma_painted_entry_converges(b: BoardView, node: NodeOpt, later: BoardView)
    requires
        same_shape(b.0, b.1),
        cell_of(b.1, node.x as int, node.y as int) == Some(node.color),
        cell_of(later.1, node.x as int, node.y as int) == Some(node.color),
        cell_of(later.0, node.x as int, node.y as int) == Some(node.color),
    ensures
        ({
            let b2 = paint_set(b, node.x, node.y, paint_result_color(node, Ok(())));
            &&& converged(b2.1, b2.0, node.x as int, node.y as int)
            &&& b2.2 == b.2
            &&& take_target(b2.2, b2.1, b2.0).0 matches Some(n) ==> !(n.x == node.x && n.y == node.y)
        }),
        take_target(later.2, later.1, later.0).0 matches Some(n) ==> !(n.x == node.x && n.y == node.y),
{
    let b2 = paint_set(b, node.x, node.y, Some(node.color));
    assert(cell_of(b2.0, node.x as int, node.y as int) == Some(node.color));
    lemma_converged_never_handed_out(b2, node.x, node.y);
    lemma_converged_never_handed_out(later, node.x, node.y);
}

/// What the update stream delivered: a text frame with the update it decodes
/// to (`None` when it is not a well-formed update), another kind of frame, or
/// the end of the connection.
#[derive(Clone, Copy, Debug, PartialEq, Eq, Structural)]
pub enum StreamEvent {
    Text(Option<NodeOpt>),
    Other,
    Closed,
}

/// What to do with a stream event.
#[derive(Clone, Copy, Debug, PartialEq, Eq, Structural)]
pub enum StreamAction {
    Apply(NodeOpt),
    Skip,
    Reconnect,
}

/// The next state (whether the handshake was acknowledged) and the action for
/// an event: the end of the connection asks for a new one; the first message
/// of a connection is the acknowledgement and is skipped; after it each
/// well-formed update is applied and anything else skipped.
pub open spec fn stream_step(acknowledged: bool, ev: StreamEvent) -> (bool, StreamAction) {
    match ev {
        StreamEvent::Closed => (false, StreamAction::Reconnect),
        _ => if !acknowledged {
            (true, StreamAction::Skip)
        } else {
            match ev {
                StreamEvent::Text(Some(n)) => (true, StreamAction::Apply(n)),
                _ => (true, StreamAction::Skip),
            }
        },
    }
}

/// One connection of the update stream.
pub struct StreamSession {
    acknowledged: bool,
}

impl StreamSession {
    pub closed spec fn acknowledged(&self) -> bool {
        self.acknowledged
    }

    /// The state of a connection just opened and subscribed.
    pub fn new() -> (r: StreamSession)
        ensures
            !r.acknowledged(),
    {
        StreamSession { acknowledged: false }
    }

    /// Decides what to do with the next event of the connection.
    pub fn on_event(&mut self, ev: StreamEvent) -> (r: StreamAction)
        ensures
            (final(self).acknowledged(), r) == stream_step(old(self).acknowledged(), ev),
    {
        match ev {
            StreamEvent::Closed => {
                self.acknowledged = false;
                StreamAction::Reconnect
            },
            StreamEvent::Text(update) => {
                if !self.acknowledged {
                    self.acknowledged = true;
                    StreamAction::Skip
                } else {
                    match update {
                        Some(n) => StreamAction::Apply(n),
                        None => StreamAction::Skip,
                    }
                }
            },
            StreamEvent::Other => {
                self.acknowledged = true;
                StreamAction::Skip
            },
        }
    }
}

/// The first message of a fresh or renewed connection is never applied,
/// whatever it holds, and a closed connection leaves the session fresh again.
pub proof fn lemma_handshake_discarded(ev: StreamEvent, acknowledged: bool)
    ensures
        !(stream_step(false, ev).1 is Apply),
        !stream_step(acknowledged, StreamEvent::Closed).0,
{
}

} // verus!

verus! {

proof fn lemma_set_cell_shape(g: Grid, x: int, y: int, c: Option<usize>)
    ensures
        same_shape(set_cell(g, x, y, c), g),
        same_shape(g, set_cell(g, x, y, c)),
{
}

proof fn lemma_shape_trans(a: Grid, b: Grid, c: Grid)
    requires
        same_shape(a, b),
    ensures
        same_shape(a, c) == same_shape(b, c),
{
    if same_shape(b, c) {
        assert forall|i: int| 0 <= i < a.len() implies (#[trigger] a[i]).len() == c[i].len() by {
            assert(a[i].len() == b[i].len());
        }
    }
    if same_shape(a, c) {
        assert forall|i: int| 0 <= i < b.len() implies (#[trigger] b[i]).len() == c[i].len() by {
            assert(a[i].len() == b[i].len());
        }
    }
}

proof fn lemma_paint_set_shape(b: BoardView, x: usize, y: usize, c: Option<usize>)
    ensures
        same_shape(paint_set(b, x, y, c).0, paint_set(b, x, y, c).1) == same_shape(b.0, b.1),
        paint_set(b, x, y, c).1 == b.1,
{
    lemma_set_cell_shape(b.0, x as int, y as int, c);
    lemma_shape_trans(set_cell(b.0, x as int, y as int, c), b.0, b.1);
}

proof fn lemma_design_shape(list: Seq<NodeOpt>, n: nat, width: nat, height: nat)
    ensures
        same_shape(uniform(width, height, Some(1)), design_of(list, n, width, height)),
    decreases n,
{
    if n == 0 || n > list.len() {
    } else {
        let e = list[n - 1];
        let prev = design_of(list, (n - 1) as nat, width, height);
        lemma_design_shape(list, (n - 1) as nat, width, height);
        lemma_set_cell_shape(prev, e.x as int, e.y as int, Some(e.color));
        let u = uniform(width, height, Some(1));
        let cur = set_cell(prev, e.x as int, e.y as int, Some(e.color));
        assert forall|i: int| 0 <= i < u.len() implies (#[trigger] u[i]).len() == cur[i].len() by {
            assert(u[i].len() == prev[i].len());
        }
    }
}

} // verus!
