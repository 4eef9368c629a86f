use vstd::prelude::*;
use crate::frame::{Cell, Color, blank_cell};

verus! {

/// One terminal write: move the cursor to `(x, y)`, set the foreground
/// colour to `cell.color` and print `cell.ch`. `index` is the cell's position
/// in the frame.
#[derive(PartialEq, Eq, Structural, Clone, Copy, Debug)]
pub struct DrawOp {
    pub index: usize,
    pub x: usize,
    pub y: usize,
    pub cell: Cell,
}

/// The write that puts cell `i` of `frame` on screen, for a frame `width`
/// cells wide.
pub open spec fn op_at(frame: Seq<Cell>, width: int, i: int) -> DrawOp {
    DrawOp { index: i as usize, x: (i % width) as usize, y: (i / width) as usize, cell: frame[i] }
}

/// The writes that bring the first `n` cells of the screen from `shown` to
/// `frame`: one for each differing cell, in increasing position.
pub open spec fn ops_upto(shown: Seq<Cell>, frame: Seq<Cell>, width: int, n: int) -> Seq<DrawOp>
    decreases n,
{
    if n <= 0 {
        seq![]
    } else if frame[n - 1] != shown[n - 1] {
        ops_upto(shown, frame, width, n - 1).push(op_at(frame, width, n - 1))
    } else {
        ops_upto(shown, frame, width, n - 1)
    }
}

/// A screen of `len` blank cells.
pub open spec fn blank_screen(len: nat) -> Seq<Cell> {
    Seq::new(len, |i: int| blank_cell())
}

/// What the renderer compares against: the remembered screen, or a blank
/// screen the size of the frame when nothing has been drawn yet.
pub open spec fn shown_before(previous: Seq<Cell>, frame_len: nat) -> Seq<Cell> {
    if previous.len() == 0 {
        blank_screen(frame_len)
    } else {
        previous
    }
}

/// How many leading cells a draw considers.
pub open spec fn drawn_len(previous: Seq<Cell>, frame: Seq<Cell>) -> int {
    let shown = shown_before(previous, frame.len());
    if frame.len() < shown.len() {
        frame.len() as int
    } else {
        shown.len() as int
    }
}

/// The writes issued when `frame` is drawn over the remembered screen.
pub open spec fn draw_ops(previous: Seq<Cell>, frame: Seq<Cell>, width: int) -> Seq<DrawOp> {
    ops_upto(shown_before(previous, frame.len()), frame, width, drawn_len(previous, frame))
}

/// The screen remembered after `frame` is drawn: the considered cells take
/// the frame's cells, the rest stay as they were.
pub open spec fn screen_after(previous: Seq<Cell>, frame: Seq<Cell>) -> Seq<Cell> {
    let shown = shown_before(previous, frame.len());
    let m = drawn_len(previous, frame);
    Seq::new(shown.len(), |i: int| if i < m { frame[i] } else { shown[i] })
}

/// The positions below `n` whose cell differs between `shown` and `frame`.
pub open spec fn changed_cells(shown: Seq<Cell>, frame: Seq<Cell>, n: int) -> Set<int> {
    Set::new(|i: int| 0 <= i < n && frame[i] != shown[i])
}

proof fn lemma_ops_none(shown: Seq<Cell>, frame: Seq<Cell>, width: int, n: int)
    requires
        forall|i: int| 0 <= i < n ==> #[trigger] frame[i] == shown[i],
    ensures
        ops_upto(shown, frame, width, n).len() == 0,
    decreases n,
{
    if n > 0 {
        lemma_ops_none(shown, frame, width, n - 1);
    }
}

proof fn lemma_ops_all(shown: Seq<Cell>, frame: Seq<Cell>, width: int, n: int)
    requires
        n >= 0,
        forall|i: int| 0 <= i < n ==> #[trigger] frame[i] != shown[i],
    ensures
        ops_upto(shown, frame, width, n).len() == n,
    decreases n,
{
    if n > 0 {
        lemma_ops_all(shown, frame, width, n - 1);
    }
}

proof fn lemma_ops_shape(shown: Seq<Cell>, frame: Seq<Cell>, width: int, n: int)
    requires
        0 <= n <= usize::MAX,
    ensures
        changed_cells(shown, frame, n).finite(),
        ops_upto(shown, frame, width, n).len() == changed_cells(shown, frame, n).len(),
        forall|j: int|
            0 <= j < ops_upto(shown, frame, width, n).len() ==> {
                let op = #[trigger] ops_upto(shown, frame, width, n)[j];
                &&& op.index < n
                &&& changed_cells(shown, frame, n).contains(op.index as int)
                &&& op == op_at(frame, width, op.index as int)
            },
        forall|a: int, b: int|
            0 <= a < b < ops_upto(shown, frame, width, n).len() ==> (#[trigger] ops_upto(
                shown,
                frame,
                width,
                n,
            )[a]).index < (#[trigger] ops_upto(shown, frame, width, n)[b]).index,
    decreases n,
{
    if n == 0 {
        assert(changed_cells(shown, frame, 0) =~= Set::<int>::empty());
    } else {
        lemma_ops_shape(shown, frame, width, n - 1);
        let before = changed_cells(shown, frame, n - 1);
        if frame[n - 1] != shown[n - 1] {
            assert(changed_cells(shown, frame, n) =~= before.insert(n - 1));
        } else {
            assert(changed_cells(shown, frame, n) =~= before);
        }
    }
}

/// Drawing the same frame a second time issues no write: after the first
/// draw every considered cell already shows the frame's cell. Before
/// anything is drawn, a frame with a non-blank cell does issue writes.
pub proof fn redraw_is_idle(previous: Seq<Cell>, frame: Seq<Cell>, width: int)
    ensures
        draw_ops(screen_after(previous, frame), frame, width).len() == 0,
        previous.len() == 0 && (exists|i: int| 0 <= i < frame.len() && #[trigger] frame[i] != blank_cell())
            ==> draw_ops(previous, frame, width).len() > 0,
{
    let after = screen_after(previous, frame);
    let m = drawn_len(previous, frame);
    if after.len() > 0 {
        assert(drawn_len(after, frame) == m);
        lemma_ops_none(after, frame, width, m);
    }
    if previous.len() == 0 && (exists|i: int| 0 <= i < frame.len() && #[trigger] frame[i] != blank_cell()) {
        let i = choose|i: int| 0 <= i < frame.len() && #[trigger] frame[i] != blank_cell();
        lemma_ops_nonempty(shown_before(previous, frame.len()), frame, width, m, i);
    }
}

proof fn lemma_ops_nonempty(shown: Seq<Cell>, frame: Seq<Cell>, width: int, n: int, i: int)
    requires
        0 <= i < n,
        frame[i] != shown[i],
    ensures
        ops_upto(shown, frame, width, n).len() > 0,
    decreases n,
{
    if n - 1 > i {
        lemma_ops_nonempty(shown, frame, width, n - 1, i);
    }
}

/// Over a remembered screen, a draw issues exactly one write per considered
/// cell that differs, each carrying that cell and its coordinates, in
/// increasing position.
pub proof fn minimal_diff(previous: Seq<Cell>, frame: Seq<Cell>, width: int)
    requires
        previous.len() > 0,
        frame.len() <= usize::MAX,
    ensures
        ({
            let m = if frame.len() < previous.len() { frame.len() as int } else { previous.len() as int };
            let changed = changed_cells(previous, frame, m);
            let ops = draw_ops(previous, frame, width);
            &&& changed.finite()
            &&& ops.len() == changed.len()
            &&& forall|j: int|
                0 <= j < ops.len() ==> #[trigger] changed.contains(ops[j].index as int)
                    && ops[j] == op_at(frame, width, ops[j].index as int)
            &&& forall|a: int, b: int| 0 <= a < b < ops.len() ==> ops[a].index < ops[b].index
        }),
{
    let m = drawn_len(previous, frame);
    lemma_ops_shape(previous, frame, width, m);
    let ops = draw_ops(previous, frame, width);
    assert forall|a: int, b: int| 0 <= a < b < ops.len() implies ops[a].index < ops[b].index by {
        assert(ops[a] == ops_upto(previous, frame, width, m)[a]);
        assert(ops[b] == ops_upto(previous, frame, width, m)[b]);
    }
}

/// The first draw of a `width` by `height` frame with no blank cell writes
/// every cell.
pub proof fn first_draw_paints_all(frame: Seq<Cell>, width: int, height: int)
    requires
        frame.len() == width * height,
        forall|i: int| 0 <= i < frame.len() ==> #[trigger] frame[i] != blank_cell(),
    ensures
        draw_ops(seq![], frame, width).len() == width * height,
{
    let shown = shown_before(seq![], frame.len());
    lemma_ops_all(shown, frame, width, frame.len() as int);
}

/// A differential renderer: remembers the last screen it drew and plans only
/// the writes for cells that changed since.
pub struct Display {
    previous_frame: Vec<Cell>,
}

impl Display {
    /// The screen as last drawn; empty before the first draw.
    pub closed spec fn previous(&self) -> Seq<Cell> {
        self.previous_frame@
    }

    /// A renderer that has drawn nothing yet.
    pub fn new() -> (r: Display)
        ensures
            r.previous().len() == 0,
    {
        Display { previous_frame: Vec::new() }
    }

    /// Plans the writes that draw `ascii_frame`, a frame `img_width` cells
    /// wide, over what this renderer last drew, and remembers the result.
    ///
    /// Before the first draw the screen counts as blank, the size of the
    /// frame. Only positions present both in the frame and in the remembered
    /// screen are considered; a cell that differs from the remembered one
    /// gives one write, in increasing position.
    pub fn draw(&mut self, ascii_frame: Vec<Cell>, img_width: u32) -> (r: Vec<DrawOp>)
        requires
            img_width > 0 || ascii_frame@.len() == 0,
        ensures
            r@ == draw_ops(old(self).previous(), ascii_frame@, img_width as int),
            final(self).previous() == screen_after(old(self).previous(), ascii_frame@),
    {
        let ghost prev = self.previous_frame@;
        let ghost frame = ascii_frame@;
        let ghost w = img_width as int;
        if self.previous_frame.len() == 0 {
            let blank = Cell { ch: ' ', color: Color::Black };
            self.previous_frame = vec![blank; ascii_frame.len()];
            assert(self.previous_frame@ =~= blank_screen(frame.len()));
        }
        let ghost shown = self.previous_frame@;
        let n: usize = if ascii_frame.len() < self.previous_frame.len() {
            ascii_frame.len()
        } else {
            self.previous_frame.len()
        };
        let mut ops: Vec<DrawOp> = Vec::new();
        let mut i: usize = 0;
        while i < n
            invariant
                shown == shown_before(prev, frame.len()),
                frame == ascii_frame@,
                w == img_width as int,
                n == drawn_len(prev, frame),
                n <= frame.len(),
                n <= shown.len(),
                n > 0 ==> img_width > 0,
                i <= n,
                self.previous_frame@.len() == shown.len(),
                forall|j: int|
                    0 <= j < shown.len() ==> #[trigger] self.previous_frame@[j] == if j < i {
                        frame[j]
                    } else {
                        shown[j]
                    },
                ops@ == ops_upto(shown, frame, w, i as int),
            decreases n - i,
        {
            let c: Cell = ascii_frame[i];
            let p: Cell = self.previous_frame[i];
            if c != p {
                let op = DrawOp {
                    index: i,
                    x: i % (img_width as usize),
                    y: i / (img_width as usize),
                    cell: c,
                };
                ops.push(op);
                self.previous_frame.set(i, c);
            }
            i = i + 1;
        }
        assert(self.previous_frame@ =~= screen_after(prev, frame));
        ops
    }
}

} // verus!
