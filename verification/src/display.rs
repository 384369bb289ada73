use vstd::prelude::*;
use vstd::arithmetic::div_mod::{lemma_fundamental_div_mod, lemma_fundamental_div_mod_converse};
use crate::cmd::{CellUpdate, Cmd, Point, RgbColor};

verus! {

// ---------------------------------------------------------------------------
// Cells, canvases and terminal operations
// ---------------------------------------------------------------------------

/// What one terminal cell shows.
#[derive(Debug, Copy, Clone, PartialEq, Eq)]
pub struct Cell {
    pub glyph: char,
    pub fg_color: Option<RgbColor>,
    pub bg_color: Option<RgbColor>,
}

/// A blank in the default colours.
pub open spec fn blank() -> Cell {
    Cell { glyph: ' ', fg_color: None, bg_color: None }
}

impl Default for Cell {
    fn default() -> (c: Self)
        ensures
            c == blank(),
    {
        Cell { glyph: ' ', fg_color: None, bg_color: None }
    }
}

/// `n` blank cells.
pub open spec fn blank_buffer(n: nat) -> Seq<Cell> {
    Seq::new(n, |i: int| blank())
}

/// What a cell shows after `u` is drawn on it.
pub open spec fn cell_of(u: CellUpdate) -> Cell {
    Cell { glyph: u.glyph, fg_color: u.fg_color, bg_color: u.bg_color }
}

/// The buffer index of column `x`, row `y` on a canvas `w` columns wide.
pub open spec fn grid_index(w: int, x: int, y: int) -> int {
    y * w + x
}

/// One operation on the terminal.
#[derive(Debug, Copy, Clone, PartialEq, Eq)]
pub enum TermOp {
    /// Move the cursor to column, row.
    MoveTo(u16, u16),
    /// Set the text colour; `None` resets it to the default.
    SetForeground(Option<RgbColor>),
    /// Set the background colour; `None` resets it to the default.
    SetBackground(Option<RgbColor>),
    /// Write a glyph at the cursor in the current colours; the cursor moves
    /// one column right.
    Print(char),
}

/// A grid of cells, stored row by row.
#[derive(Debug)]
struct Canvas {
    height: u16,
    width: u16,
    buffer: Vec<Cell>,
}

/// The cell at position `i` of `v`.
fn cell_at(v: &Vec<Cell>, i: usize) -> (c: Cell)
    requires
        i < v@.len(),
    ensures
        c == v@[i as int],
{
    v[i]
}

/// `n` blank cells.
fn blank_vec(n: usize) -> (v: Vec<Cell>)
    ensures
        v@ == blank_buffer(n as nat),
{
    let mut v: Vec<Cell> = Vec::new();
    let mut i: usize = 0;
    while i < n
        invariant
            i <= n,
            v@ == blank_buffer(i as nat),
        decreases n - i,
    {
        v.push(Cell::default());
        assert(v@ =~= blank_buffer((i + 1) as nat));
        i = i + 1;
    }
    v
}

impl Canvas {
    spec fn wf(&self) -> bool {
        self.buffer@.len() == self.width as int * self.height as int
    }

    fn new(width: u16, height: u16) -> (c: Self)
        ensures
            c.wf(),
            c.width == width,
            c.height == height,
            c.buffer@ == blank_buffer(width as nat * height as nat),
    {
        proof {
            lemma_cells_fit(width, height);
        }
        let size = (width as usize) * (height as usize);
        Canvas { width, height, buffer: blank_vec(size) }
    }

    fn clear(&mut self)
        ensures
            final(self).width == old(self).width,
            final(self).height == old(self).height,
            final(self).buffer@ == blank_buffer(old(self).buffer@.len()),
    {
        let n = self.buffer.len();
        let mut i: usize = 0;
        while i < n
            invariant
                i <= n,
                n == self.buffer@.len(),
                self.width == old(self).width,
                self.height == old(self).height,
                self.buffer@.len() == old(self).buffer@.len(),
                forall|j: int| 0 <= j < i ==> #[trigger] self.buffer@[j] == blank(),
            decreases n - i,
        {
            self.buffer.set(i, Cell::default());
            i = i + 1;
        }
        assert(self.buffer@ =~= blank_buffer(old(self).buffer@.len()));
    }
}

// ---------------------------------------------------------------------------
// Grid arithmetic
// ---------------------------------------------------------------------------

/// A terminal's cells can be counted, and indexed, in a `usize`.
pub proof fn lemma_cells_fit(w: u16, h: u16)
    ensures
        w as int * h as int <= 0xffff * 0xffff,
        w as int * h as int <= usize::MAX,
{
    assert(w as int * h as int <= 0xffff * 0xffff) by (nonlinear_arith)
        requires
            w <= 0xffff,
            h <= 0xffff,
    ;
}

/// Column `x` of row `y` sits at `y * w + x`, and that index gives back
/// `x` and `y`.
pub proof fn lemma_grid_position(w: int, h: int, x: int, y: int)
    requires
        0 <= x < w,
        0 <= y < h,
    ensures
        0 <= grid_index(w, x, y) < w * h,
        grid_index(w, x, y) % w == x,
        grid_index(w, x, y) / w == y,
{
    assert(0 <= y * w + x < w * h) by (nonlinear_arith)
        requires
            0 <= x < w,
            0 <= y < h,
    ;
    lemma_fundamental_div_mod_converse(y * w + x, w, y, x);
}

/// Every index of a `w` by `h` grid is `grid_index` of its column and row.
pub proof fn lemma_grid_split(w: int, h: int, k: int)
    requires
        0 <= k < w * h,
        w > 0,
    ensures
        0 <= k % w < w,
        0 <= k / w < h,
        k == grid_index(w, k % w, k / w),
{
    lemma_fundamental_div_mod(k, w);
    vstd::arithmetic::mul::lemma_mul_is_commutative(w, k / w);
    assert(0 <= k % w < w) by {
        vstd::arithmetic::div_mod::lemma_mod_bound(k, w);
    }
    assert(0 <= k / w < h) by (nonlinear_arith)
        requires
            0 <= k < w * h,
            w > 0,
            k == w * (k / w) + k % w,
            0 <= k % w < w,
    ;
}

// ---------------------------------------------------------------------------
// Rendering a frame, as functions of the two canvases
// ---------------------------------------------------------------------------

/// What the renderer remembers between cells of a frame: where the cursor
/// stands after the last glyph it wrote, and the colours it last set.
pub struct RenderState {
    pub cursor: Option<(u16, u16)>,
    pub fg: Option<RgbColor>,
    pub bg: Option<RgbColor>,
}

/// The state at the start of a frame: nothing known.
pub open spec fn render_start() -> RenderState {
    RenderState { cursor: None, fg: None, bg: None }
}

/// The operations that set one colour for the next glyph, and the colour
/// remembered after them: a colour is set unless it was the last one set;
/// the default is always set.
pub open spec fn color_ops(
    last: Option<RgbColor>,
    want: Option<RgbColor>,
    fg: bool,
) -> (Seq<TermOp>, Option<RgbColor>) {
    match want {
        Some(c) => if last != want {
            (
                seq![
                    if fg {
                        TermOp::SetForeground(want)
                    } else {
                        TermOp::SetBackground(want)
                    },
                ],
                want,
            )
        } else {
            (seq![], last)
        },
        None => (
            seq![
                if fg {
                    TermOp::SetForeground(None)
                } else {
                    TermOp::SetBackground(None)
                },
            ],
            None,
        ),
    }
}

/// The operations for the cell at column `x`, row `y`, which shows `cur`
/// and is to show `nxt`. A cell that does not change is skipped (except on a
/// first frame). Otherwise the cursor is moved there unless it already
/// stands there, the colours are set, and the glyph is written.
pub open spec fn cell_ops(
    st: RenderState,
    x: u16,
    y: u16,
    cur: Cell,
    nxt: Cell,
    first: bool,
) -> (Seq<TermOp>, RenderState) {
    if !first && cur == nxt {
        (seq![], RenderState { cursor: None, fg: st.fg, bg: st.bg })
    } else {
        let mv = if st.cursor == Some((x, y)) {
            Seq::<TermOp>::empty()
        } else {
            seq![TermOp::MoveTo(x, y)]
        };
        let (fo, f2) = color_ops(st.fg, nxt.fg_color, true);
        let (bo, b2) = color_ops(st.bg, nxt.bg_color, false);
        (
            mv + fo + bo + seq![TermOp::Print(nxt.glyph)],
            RenderState { cursor: Some(((x + 1) as u16, y)), fg: f2, bg: b2 },
        )
    }
}

/// The operations for the first `k` cells of a frame, row by row, on a
/// canvas `w` columns wide, and the state after them.
pub open spec fn render_prefix(
    w: nat,
    cur: Seq<Cell>,
    nxt: Seq<Cell>,
    first: bool,
    k: nat,
) -> (Seq<TermOp>, RenderState)
    decreases k,
{
    if k == 0 {
        (seq![], render_start())
    } else {
        let (ops, st) = render_prefix(w, cur, nxt, first, (k - 1) as nat);
        let j = k - 1;
        let (more, st2) = cell_ops(
            st,
            (j % (w as int)) as u16,
            (j / (w as int)) as u16,
            cur[j],
            nxt[j],
            first,
        );
        (ops + more, st2)
    }
}

/// The operations that bring a `w` by `h` terminal showing `cur` to show
/// `nxt`.
pub open spec fn frame_ops(w: nat, h: nat, cur: Seq<Cell>, nxt: Seq<Cell>, first: bool) -> Seq<
    TermOp,
> {
    render_prefix(w, cur, nxt, first, w * h).0
}

// ---------------------------------------------------------------------------
// A terminal, as the operations act on it
// ---------------------------------------------------------------------------

/// A `w` by `h` terminal: the cells it shows, row by row, its cursor, and
/// its current colours.
pub struct Terminal {
    pub screen: Seq<Cell>,
    pub cursor: (int, int),
    pub fg: Option<RgbColor>,
    pub bg: Option<RgbColor>,
}

/// What one operation does to a terminal `w` columns wide and `h` rows high.
pub open spec fn apply_op(t: Terminal, w: int, h: int, op: TermOp) -> Terminal {
    match op {
        TermOp::MoveTo(x, y) => Terminal { cursor: (x as int, y as int), ..t },
        TermOp::SetForeground(c) => Terminal { fg: c, ..t },
        TermOp::SetBackground(c) => Terminal { bg: c, ..t },
        TermOp::Print(g) => {
            let (x, y) = t.cursor;
            Terminal {
                screen: if 0 <= x < w && 0 <= y < h {
                    t.screen.update(grid_index(w, x, y), Cell { glyph: g, fg_color: t.fg, bg_color: t.bg })
                } else {
                    t.screen
                },
                cursor: (x + 1, y),
                ..t
            }
        },
    }
}

/// What a sequence of operations does to a terminal, first to last.
pub open spec fn apply_ops(t: Terminal, w: int, h: int, ops: Seq<TermOp>) -> Terminal
    decreases ops.len(),
{
    if ops.len() == 0 {
        t
    } else {
        apply_op(apply_ops(t, w, h, ops.drop_last()), w, h, ops.last())
    }
}

/// Applying `a + b` is applying `a`, then `b`.
pub proof fn lemma_apply_ops_concat(t: Terminal, w: int, h: int, a: Seq<TermOp>, b: Seq<TermOp>)
    ensures
        apply_ops(t, w, h, a + b) == apply_ops(apply_ops(t, w, h, a), w, h, b),
    decreases b.len(),
{
    if b.len() == 0 {
        assert(a + b =~= a);
    } else {
        assert((a + b).drop_last() =~= a + b.drop_last());
        lemma_apply_ops_concat(t, w, h, a, b.drop_last());
    }
}

proof fn lemma_apply_single(t: Terminal, w: int, h: int, op: TermOp)
    ensures
        apply_ops(t, w, h, seq![op]) == apply_op(t, w, h, op),
{
    assert(seq![op].drop_last() =~= Seq::<TermOp>::empty());
    assert(apply_ops(t, w, h, Seq::<TermOp>::empty()) == t);
    assert(seq![op].last() == op);
}

/// What the renderer remembers agrees with the terminal: the cursor stands
/// where it is believed to stand, and a colour believed set is set.
pub open spec fn state_agrees(st: RenderState, t: Terminal) -> bool {
    &&& (st.cursor matches Some((cx, cy)) ==> t.cursor == (cx as int, cy as int))
    &&& (st.fg matches Some(c) ==> t.fg == Some(c))
    &&& (st.bg matches Some(c) ==> t.bg == Some(c))
}

proof fn lemma_color_ops(t: Terminal, w: int, h: int, last: Option<RgbColor>, want: Option<RgbColor>, fg: bool)
    requires
        fg ==> (last matches Some(c) ==> t.fg == Some(c)),
        !fg ==> (last matches Some(c) ==> t.bg == Some(c)),
    ensures
        ({
            let (ops, rem) = color_ops(last, want, fg);
            let t2 = apply_ops(t, w, h, ops);
            &&& t2.screen == t.screen
            &&& t2.cursor == t.cursor
            &&& fg ==> t2.fg == want && t2.bg == t.bg
            &&& !fg ==> t2.bg == want && t2.fg == t.fg
            &&& (rem matches Some(c) ==> want == Some(c))
        }),
{
    let (ops, rem) = color_ops(last, want, fg);
    if ops.len() == 1 {
        lemma_apply_single(t, w, h, ops[0]);
        assert(ops =~= seq![ops[0]]);
    } else {
        assert(ops =~= Seq::<TermOp>::empty());
    }
}

/// One cell of a frame: a skipped cell leaves the terminal as it is; any
/// other ends up showing `nxt`, and the renderer's memory still agrees.
proof fn lemma_cell_step(
    t: Terminal,
    w: int,
    h: int,
    st: RenderState,
    x: u16,
    y: u16,
    cur: Cell,
    nxt: Cell,
    first: bool,
)
    requires
        0 <= x < w <= u16::MAX,
        0 <= y < h,
        t.screen.len() == w * h,
        state_agrees(st, t),
    ensures
        ({
            let (more, st2) = cell_ops(st, x, y, cur, nxt, first);
            let t2 = apply_ops(t, w, h, more);
            &&& state_agrees(st2, t2)
            &&& (!first && cur == nxt) ==> t2.screen == t.screen
            &&& !(!first && cur == nxt) ==> t2.screen == t.screen.update(
                grid_index(w, x as int, y as int),
                nxt,
            )
        }),
{
    lemma_grid_position(w, h, x as int, y as int);
    if !first && cur == nxt {
        assert(apply_ops(t, w, h, Seq::<TermOp>::empty()) == t);
    } else {
        let mv = if st.cursor == Some((x, y)) {
            Seq::<TermOp>::empty()
        } else {
            seq![TermOp::MoveTo(x, y)]
        };
        let (fo, f2) = color_ops(st.fg, nxt.fg_color, true);
        let (bo, b2) = color_ops(st.bg, nxt.bg_color, false);
        let p = seq![TermOp::Print(nxt.glyph)];
        let t1 = apply_ops(t, w, h, mv);
        if st.cursor == Some((x, y)) {
            assert(t1 == t);
        } else {
            lemma_apply_single(t, w, h, TermOp::MoveTo(x, y));
        }
        assert(t1.cursor == (x as int, y as int));
        lemma_color_ops(t1, w, h, st.fg, nxt.fg_color, true);
        let t2 = apply_ops(t1, w, h, fo);
        lemma_color_ops(t2, w, h, st.bg, nxt.bg_color, false);
        let t3 = apply_ops(t2, w, h, bo);
        lemma_apply_single(t3, w, h, TermOp::Print(nxt.glyph));
        let t4 = apply_ops(t3, w, h, p);
        lemma_apply_ops_concat(t, w, h, mv, fo);
        lemma_apply_ops_concat(t, w, h, mv + fo, bo);
        lemma_apply_ops_concat(t, w, h, mv + fo + bo, p);
        assert(t4.screen =~= t.screen.update(grid_index(w, x as int, y as int), nxt));
    }
}

/// After the first `k` cells of a frame the terminal shows the next canvas
/// in those cells and what it showed before in the others.
proof fn lemma_render_prefix(
    w: nat,
    h: nat,
    cur: Seq<Cell>,
    nxt: Seq<Cell>,
    first: bool,
    t: Terminal,
    k: nat,
)
    requires
        w <= u16::MAX,
        h <= u16::MAX,
        k <= w * h,
        cur.len() == w * h,
        nxt.len() == w * h,
        t.screen.len() == w * h,
        !first ==> t.screen == cur,
    ensures
        ({
            let (ops, st) = render_prefix(w, cur, nxt, first, k);
            let tk = apply_ops(t, w as int, h as int, ops);
            &&& tk.screen.len() == w * h
            &&& forall|j: int| 0 <= j < k ==> #[trigger] tk.screen[j] == nxt[j]
            &&& forall|j: int| k <= j < w * h ==> #[trigger] tk.screen[j] == t.screen[j]
            &&& state_agrees(st, tk)
        }),
    decreases k,
{
    if k == 0 {
        assert(apply_ops(t, w as int, h as int, Seq::<TermOp>::empty()) == t);
    } else {
        lemma_render_prefix(w, h, cur, nxt, first, t, (k - 1) as nat);
        let (ops, st) = render_prefix(w, cur, nxt, first, (k - 1) as nat);
        let tk = apply_ops(t, w as int, h as int, ops);
        let j = k - 1;
        assert(w > 0) by (nonlinear_arith)
            requires
                0 < k <= w * h,
        ;
        lemma_grid_split(w as int, h as int, j);
        let x = (j % (w as int)) as u16;
        let y = (j / (w as int)) as u16;
        lemma_cell_step(tk, w as int, h as int, st, x, y, cur[j], nxt[j], first);
        let (more, st2) = cell_ops(st, x, y, cur[j], nxt[j], first);
        lemma_apply_ops_concat(t, w as int, h as int, ops, more);
    }
}

/// A frame is rendered faithfully: applying its operations to a terminal
/// that shows the current canvas (or anything at all, on a first frame)
/// leaves it showing the next canvas.
pub proof fn lemma_frame_shows_next(
    w: nat,
    h: nat,
    cur: Seq<Cell>,
    nxt: Seq<Cell>,
    first: bool,
    t: Terminal,
)
    requires
        w <= u16::MAX,
        h <= u16::MAX,
        cur.len() == w * h,
        nxt.len() == w * h,
        t.screen.len() == w * h,
        !first ==> t.screen == cur,
    ensures
        apply_ops(t, w as int, h as int, frame_ops(w, h, cur, nxt, first)).screen == nxt,
{
    lemma_render_prefix(w, h, cur, nxt, first, t, w * h);
    let tk = apply_ops(t, w as int, h as int, frame_ops(w, h, cur, nxt, first));
    assert(tk.screen =~= nxt);
}

// ---------------------------------------------------------------------------
// The display server
// ---------------------------------------------------------------------------

/// What the display server holds: the size, the canvas the terminal shows,
/// the canvas being drawn, and whether the next frame is to be written
/// whole.
pub struct DisplayView {
    pub width: nat,
    pub height: nat,
    pub current: Seq<Cell>,
    pub next: Seq<Cell>,
    pub first_frame: bool,
}

/// A consistent display state: both canvases hold `width * height` cells,
/// the size being that of a terminal (at most `u16::MAX` each way).
pub open spec fn view_wf(v: DisplayView) -> bool {
    &&& v.current.len() == v.width * v.height
    &&& v.next.len() == v.width * v.height
    &&& v.width <= u16::MAX
    &&& v.height <= u16::MAX
}

/// The state after `u` is drawn: the cell at its position on the canvas
/// being drawn takes its glyph and colours; a position off the canvas
/// changes nothing.
pub open spec fn draw_spec(v: DisplayView, u: CellUpdate) -> DisplayView {
    if u.pos.x < v.width && u.pos.y < v.height {
        DisplayView {
            next: v.next.update(grid_index(v.width as int, u.pos.x as int, u.pos.y as int), cell_of(u)),
            ..v
        }
    } else {
        v
    }
}

/// The state after a clear: the canvas being drawn is blank.
pub open spec fn clear_spec(v: DisplayView) -> DisplayView {
    DisplayView { next: blank_buffer(v.next.len()), ..v }
}

/// The state after a flush: the terminal shows the canvas that was drawn,
/// which stays as it is, and the next frame is written by difference.
pub open spec fn flush_spec(v: DisplayView) -> DisplayView {
    DisplayView { current: v.next, first_frame: false, ..v }
}

/// The operations that a flush sends to the terminal.
pub open spec fn flush_ops(v: DisplayView) -> Seq<TermOp> {
    frame_ops(v.width, v.height, v.current, v.next, v.first_frame)
}

/// The state after `cmd`.
pub open spec fn execute_spec(v: DisplayView, cmd: Cmd) -> DisplayView {
    match cmd {
        Cmd::Draw(u) => draw_spec(v, u),
        Cmd::Clear => clear_spec(v),
        Cmd::Flush => flush_spec(v),
        Cmd::QuerySize => v,
    }
}

/// The operations that `cmd` sends to the terminal: only a flush sends any.
pub open spec fn execute_ops(v: DisplayView, cmd: Cmd) -> Seq<TermOp> {
    match cmd {
        Cmd::Flush => flush_ops(v),
        _ => seq![],
    }
}

/// A buffer resized from `ow` by `oh` to `nw` by `nh`: each cell inside
/// both sizes keeps what it showed, every other cell is blank.
pub open spec fn resized(buf: Seq<Cell>, ow: nat, oh: nat, nw: nat, nh: nat) -> Seq<Cell> {
    Seq::new(
        nw * nh,
        |k: int|
            {
                let x = k % (nw as int);
                let y = k / (nw as int);
                if x < ow && y < oh {
                    buf[grid_index(ow as int, x, y)]
                } else {
                    blank()
                }
            },
    )
}

/// The state after a resize to `w` by `h`: both canvases are resized, and
/// the next frame is written whole.
pub open spec fn resize_spec(v: DisplayView, w: nat, h: nat) -> DisplayView {
    DisplayView {
        width: w,
        height: h,
        current: resized(v.current, v.width, v.height, w, h),
        next: resized(v.next, v.width, v.height, w, h),
        first_frame: true,
    }
}

fn same_color(a: Option<RgbColor>, b: Option<RgbColor>) -> (r: bool)
    ensures
        r == (a == b),
{
    match (a, b) {
        (Some(p), Some(q)) => p.r == q.r && p.g == q.g && p.b == q.b,
        (None, None) => true,
        _ => false,
    }
}

fn same_cell(a: Cell, b: Cell) -> (r: bool)
    ensures
        r == (a == b),
{
    a.glyph == b.glyph && same_color(a.fg_color, b.fg_color) && same_color(a.bg_color, b.bg_color)
}

/// The operations of a frame being written, and what the renderer
/// remembers.
struct FrameWriter {
    ops: Vec<TermOp>,
    cursor: Option<(u16, u16)>,
    fg: Option<RgbColor>,
    bg: Option<RgbColor>,
}

impl FrameWriter {
    spec fn state(&self) -> RenderState {
        RenderState { cursor: self.cursor, fg: self.fg, bg: self.bg }
    }

    fn set_color(&mut self, want: Option<RgbColor>, fg: bool)
        ensures
            ({
                let (more, rem) = color_ops(if fg { old(self).fg } else { old(self).bg }, want, fg);
                &&& final(self).ops@ == old(self).ops@ + more
                &&& final(self).cursor == old(self).cursor
                &&& fg ==> final(self).fg == rem && final(self).bg == old(self).bg
                &&& !fg ==> final(self).bg == rem && final(self).fg == old(self).fg
            }),
    {
        let last = if fg {
            self.fg
        } else {
            self.bg
        };
        let ghost start = self.ops@;
        match want {
            Some(_) => {
                if !same_color(last, want) {
                    if fg {
                        self.ops.push(TermOp::SetForeground(want));
                        self.fg = want;
                    } else {
                        self.ops.push(TermOp::SetBackground(want));
                        self.bg = want;
                    }
                } else {
                    assert(self.ops@ =~= start + Seq::<TermOp>::empty());
                }
            },
            None => {
                if fg {
                    self.ops.push(TermOp::SetForeground(None));
                    self.fg = None;
                } else {
                    self.ops.push(TermOp::SetBackground(None));
                    self.bg = None;
                }
            },
        }
    }

    /// Writes the operations for the cell at column `x`, row `y`.
    fn cell(&mut self, x: u16, y: u16, cur: Cell, nxt: Cell, first: bool)
        requires
            x < u16::MAX,
        ensures
            ({
                let (more, st2) = cell_ops(old(self).state(), x, y, cur, nxt, first);
                &&& final(self).ops@ == old(self).ops@ + more
                &&& final(self).state() == st2
            }),
    {
        let ghost start = self.ops@;
        if !first && same_cell(cur, nxt) {
            self.cursor = None;
            assert(self.ops@ =~= start + Seq::<TermOp>::empty());
            return;
        }
        let at_place = match self.cursor {
            Some((cx, cy)) => cx == x && cy == y,
            None => false,
        };
        if !at_place {
            self.ops.push(TermOp::MoveTo(x, y));
        }
        let ghost after_move = self.ops@;
        self.set_color(nxt.fg_color, true);
        let ghost after_fg = self.ops@;
        self.set_color(nxt.bg_color, false);
        let ghost after_bg = self.ops@;
        self.ops.push(TermOp::Print(nxt.glyph));
        self.cursor = Some((x + 1, y));
        proof {
            let mv = if old(self).cursor == Some((x, y)) {
                Seq::<TermOp>::empty()
            } else {
                seq![TermOp::MoveTo(x, y)]
            };
            assert(after_move =~= start + mv);
            let (fo, f2) = color_ops(old(self).fg, nxt.fg_color, true);
            let (bo, b2) = color_ops(old(self).bg, nxt.bg_color, false);
            assert(self.ops@ =~= start + (mv + fo + bo + seq![TermOp::Print(nxt.glyph)]));
        }
    }
}

/// A resize copied up to column `x` of row `y`: the cells of the region
/// inside both sizes that come before (`x`, `y`) row by row hold the old
/// contents, all others are blank.
pub open spec fn partial_resize(
    buf: Seq<Cell>,
    ow: int,
    nw: int,
    nh: int,
    mw: int,
    mh: int,
    y: int,
    x: int,
) -> Seq<Cell> {
    Seq::new(
        (nw * nh) as nat,
        |k: int|
            {
                let xx = k % nw;
                let yy = k / nw;
                if xx < mw && yy < mh && (yy < y || (yy == y && xx < x)) {
                    buf[grid_index(ow, xx, yy)]
                } else {
                    blank()
                }
            },
    )
}

proof fn lemma_partial_resize_step(
    buf: Seq<Cell>,
    ow: int,
    nw: int,
    nh: int,
    mw: int,
    mh: int,
    y: int,
    x: int,
)
    requires
        0 <= x < mw <= nw,
        0 <= y < mh <= nh,
    ensures
        partial_resize(buf, ow, nw, nh, mw, mh, y, x + 1) == partial_resize(
            buf,
            ow,
            nw,
            nh,
            mw,
            mh,
            y,
            x,
        ).update(grid_index(nw, x, y), buf[grid_index(ow, x, y)]),
{
    lemma_grid_position(nw, nh, x, y);
    let a = partial_resize(buf, ow, nw, nh, mw, mh, y, x + 1);
    let b = partial_resize(buf, ow, nw, nh, mw, mh, y, x).update(
        grid_index(nw, x, y),
        buf[grid_index(ow, x, y)],
    );
    assert forall|k: int| 0 <= k < a.len() implies a[k] == b[k] by {
        lemma_grid_split(nw, nh, k);
    }
    assert(a =~= b);
}

proof fn lemma_partial_resize_start(
    buf: Seq<Cell>,
    ow: int,
    nw: int,
    nh: int,
    mw: int,
    mh: int,
)
    requires
        nw >= 0,
        nh >= 0,
    ensures
        partial_resize(buf, ow, nw, nh, mw, mh, 0, 0) == blank_buffer((nw * nh) as nat),
{
    let a = partial_resize(buf, ow, nw, nh, mw, mh, 0, 0);
    let b = blank_buffer((nw * nh) as nat);
    assert forall|k: int| 0 <= k < a.len() implies a[k] == b[k] by {
        assert(nw > 0) by (nonlinear_arith)
            requires
                0 <= k < nw * nh,
                nw >= 0,
        ;
        lemma_grid_split(nw, nh, k);
    }
    assert(a =~= b);
}

proof fn lemma_partial_resize_row(
    buf: Seq<Cell>,
    ow: int,
    nw: int,
    nh: int,
    mw: int,
    mh: int,
    y: int,
)
    ensures
        partial_resize(buf, ow, nw, nh, mw, mh, y, mw) == partial_resize(
            buf,
            ow,
            nw,
            nh,
            mw,
            mh,
            y + 1,
            0,
        ),
{
    let a = partial_resize(buf, ow, nw, nh, mw, mh, y, mw);
    let b = partial_resize(buf, ow, nw, nh, mw, mh, y + 1, 0);
    assert(a =~= b);
}

proof fn lemma_partial_resize_done(
    buf: Seq<Cell>,
    ow: int,
    oh: int,
    nw: int,
    nh: int,
    mw: int,
    mh: int,
)
    requires
        0 <= mw <= nw,
        0 <= mh <= nh,
        mw <= ow,
        mh <= oh,
        mw == ow || mw == nw,
        mh == oh || mh == nh,
    ensures
        partial_resize(buf, ow, nw, nh, mw, mh, mh, 0) == resized(
            buf,
            ow as nat,
            oh as nat,
            nw as nat,
            nh as nat,
        ),
{
    let a = partial_resize(buf, ow, nw, nh, mw, mh, mh, 0);
    let b = resized(buf, ow as nat, oh as nat, nw as nat, nh as nat);
    assert forall|k: int| 0 <= k < a.len() implies a[k] == b[k] by {
        lemma_grid_split(nw, nh, k);
    }
    assert(a =~= b);
}

/// Keeps a double-buffered canvas and computes what the terminal is sent.
#[derive(Debug)]
pub struct DisplayServer {
    current_canvas: Canvas,
    next_canvas: Canvas,
    is_first_frame: bool,
}

impl View for DisplayServer {
    type V = DisplayView;

    closed spec fn view(&self) -> DisplayView {
        DisplayView {
            width: self.current_canvas.width as nat,
            height: self.current_canvas.height as nat,
            current: self.current_canvas.buffer@,
            next: self.next_canvas.buffer@,
            first_frame: self.is_first_frame,
        }
    }
}

impl DisplayServer {
    /// The server's invariant.
    pub closed spec fn wf(&self) -> bool {
        &&& self.current_canvas.wf()
        &&& self.next_canvas.wf()
        &&& self.current_canvas.width == self.next_canvas.width
        &&& self.current_canvas.height == self.next_canvas.height
    }

    /// A consistent server has a consistent view.
    pub proof fn lemma_wf(&self)
        requires
            self.wf(),
        ensures
            view_wf(self@),
    {
    }

    /// A server for a `width` by `height` terminal: both canvases blank, the
    /// first frame to be written whole.
    pub fn new(width: u16, height: u16) -> (s: Self)
        ensures
            s.wf(),
            s@ == (DisplayView {
                width: width as nat,
                height: height as nat,
                current: blank_buffer(width as nat * height as nat),
                next: blank_buffer(width as nat * height as nat),
                first_frame: true,
            }),
    {
        DisplayServer {
            current_canvas: Canvas::new(width, height),
            next_canvas: Canvas::new(width, height),
            is_first_frame: true,
        }
    }

    fn draw(&mut self, cell_update: CellUpdate)
        requires
            old(self).wf(),
        ensures
            final(self).wf(),
            final(self)@ == draw_spec(old(self)@, cell_update),
    {
        let Point { x, y } = cell_update.pos;
        if x >= self.next_canvas.width || y >= self.next_canvas.height {
            return;
        }
        proof {
            lemma_grid_position(
                self.next_canvas.width as int,
                self.next_canvas.height as int,
                x as int,
                y as int,
            );
            lemma_cells_fit(self.next_canvas.width, self.next_canvas.height);
        }
        let idx = (y as usize) * (self.next_canvas.width as usize) + (x as usize);
        self.next_canvas.buffer.set(
            idx,
            Cell {
                glyph: cell_update.glyph,
                fg_color: cell_update.fg_color,
                bg_color: cell_update.bg_color,
            },
        );
    }

    fn clear(&mut self)
        requires
            old(self).wf(),
        ensures
            final(self).wf(),
            final(self)@ == clear_spec(old(self)@),
    {
        self.next_canvas.clear();
    }

    /// The size of the terminal, in columns and rows.
    pub fn get_size(&mut self) -> (r: (u16, u16))
        requires
            old(self).wf(),
        ensures
            final(self).wf(),
            final(self)@ == old(self)@,
            r.0 as nat == old(self)@.width,
            r.1 as nat == old(self)@.height,
    {
        (self.current_canvas.width, self.current_canvas.height)
    }

    fn flush(&mut self) -> (ops: Vec<TermOp>)
        requires
            old(self).wf(),
        ensures
            final(self).wf(),
            final(self)@ == flush_spec(old(self)@),
            ops@ == flush_ops(old(self)@),
    {
        let width = self.current_canvas.width;
        let height = self.current_canvas.height;
        let first = self.is_first_frame;
        let ghost cur = self.current_canvas.buffer@;
        let ghost nxt = self.next_canvas.buffer@;
        let ghost wn = width as nat;
        let mut out = FrameWriter { ops: Vec::new(), cursor: None, fg: None, bg: None };
        let mut k: usize = 0;
        let mut y: u16 = 0;
        while y < height
            invariant
                self.wf(),
                self@ == old(self)@,
                width == self.current_canvas.width,
                height == self.current_canvas.height,
                first == self.is_first_frame,
                cur == self.current_canvas.buffer@,
                nxt == self.next_canvas.buffer@,
                wn == width as nat,
                y <= height,
                k == y as int * width as int,
                (out.ops@, out.state()) == render_prefix(wn, cur, nxt, first, k as nat),
            decreases height - y,
        {
            let mut x: u16 = 0;
            while x < width
                invariant
                    self.wf(),
                    self@ == old(self)@,
                    width == self.current_canvas.width,
                    height == self.current_canvas.height,
                    first == self.is_first_frame,
                    cur == self.current_canvas.buffer@,
                    nxt == self.next_canvas.buffer@,
                    wn == width as nat,
                    y < height,
                    x <= width,
                    k == y as int * width as int + x as int,
                    (out.ops@, out.state()) == render_prefix(wn, cur, nxt, first, k as nat),
                decreases width - x,
            {
                proof {
                    lemma_grid_position(width as int, height as int, x as int, y as int);
                    lemma_cells_fit(width, height);
                }
                let c = cell_at(&self.current_canvas.buffer, k);
                let n = cell_at(&self.next_canvas.buffer, k);
                out.cell(x, y, c, n, first);
                k = k + 1;
                x = x + 1;
            }
            assert((y as int + 1) * width as int == y as int * width as int + width as int)
                by (nonlinear_arith);
            y = y + 1;
        }
        assert(k as nat == wn * (height as nat)) by (nonlinear_arith)
            requires
                k == y as int * width as int,
                y == height,
                wn == width as nat,
        ;
        let n = self.next_canvas.buffer.len();
        let mut i: usize = 0;
        while i < n
            invariant
                i <= n,
                n == nxt.len(),
                self.next_canvas.buffer@ == nxt,
                self.next_canvas.width == old(self).next_canvas.width,
                self.next_canvas.height == old(self).next_canvas.height,
                self.current_canvas.width == old(self).current_canvas.width,
                self.current_canvas.height == old(self).current_canvas.height,
                self.current_canvas.buffer@.len() == n,
                old(self).wf(),
                nxt == old(self).next_canvas.buffer@,
                forall|j: int| 0 <= j < i ==> #[trigger] self.current_canvas.buffer@[j] == nxt[j],
            decreases n - i,
        {
            let c = cell_at(&self.next_canvas.buffer, i);
            self.current_canvas.buffer.set(i, c);
            i = i + 1;
        }
        assert(self.current_canvas.buffer@ =~= nxt);
        self.is_first_frame = false;
        out.ops
    }

    /// Resizes both canvases to `new_width` by `new_height`, keeping what
    /// lies inside both sizes; the next frame is written whole.
    pub fn resize(&mut self, new_width: u16, new_height: u16)
        requires
            old(self).wf(),
            new_width as int * new_height as int <= u16::MAX,
        ensures
            final(self).wf(),
            final(self)@ == resize_spec(old(self)@, new_width as nat, new_height as nat),
    {
        let new_size = (new_width as usize) * (new_height as usize);
        let mut new_current = blank_vec(new_size);
        let mut new_next = blank_vec(new_size);
        let old_width = self.current_canvas.width;
        let old_height = self.current_canvas.height;
        let min_width = if old_width < new_width {
            old_width
        } else {
            new_width
        };
        let min_height = if old_height < new_height {
            old_height
        } else {
            new_height
        };
        let ghost ow = old_width as int;
        let ghost oh = old_height as int;
        let ghost nw = new_width as int;
        let ghost nh = new_height as int;
        let ghost cur = self.current_canvas.buffer@;
        let ghost nxt = self.next_canvas.buffer@;
        proof {
            lemma_partial_resize_start(cur, ow, nw, nh, min_width as int, min_height as int);
            lemma_partial_resize_start(nxt, ow, nw, nh, min_width as int, min_height as int);
        }
        let mut y: u16 = 0;
        while y < min_height
            invariant
                old(self).wf(),
                self@ == old(self)@,
                self.wf(),
                cur == self.current_canvas.buffer@,
                nxt == self.next_canvas.buffer@,
                old_width == self.current_canvas.width,
                old_height == self.current_canvas.height,
                ow == old_width,
                oh == old_height,
                nw == new_width,
                nh == new_height,
                nw * nh <= u16::MAX,
                new_size == nw * nh,
                min_width <= old_width && min_width <= new_width,
                min_height <= old_height && min_height <= new_height,
                min_width == old_width || min_width == new_width,
                min_height == old_height || min_height == new_height,
                y <= min_height,
                new_current@ == partial_resize(cur, ow, nw, nh, min_width as int, min_height as int, y as int, 0),
                new_next@ == partial_resize(nxt, ow, nw, nh, min_width as int, min_height as int, y as int, 0),
            decreases min_height - y,
        {
            let mut x: u16 = 0;
            while x < min_width
                invariant
                    old(self).wf(),
                    self@ == old(self)@,
                    self.wf(),
                    cur == self.current_canvas.buffer@,
                    nxt == self.next_canvas.buffer@,
                    old_width == self.current_canvas.width,
                    old_height == self.current_canvas.height,
                    ow == old_width,
                    oh == old_height,
                    nw == new_width,
                    nh == new_height,
                    nw * nh <= u16::MAX,
                    new_size == nw * nh,
                    min_width <= old_width && min_width <= new_width,
                    min_height <= old_height && min_height <= new_height,
                    y < min_height,
                    x <= min_width,
                    new_current@ == partial_resize(cur, ow, nw, nh, min_width as int, min_height as int, y as int, x as int),
                    new_next@ == partial_resize(nxt, ow, nw, nh, min_width as int, min_height as int, y as int, x as int),
                decreases min_width - x,
            {
                proof {
                    lemma_grid_position(ow, oh, x as int, y as int);
                    lemma_grid_position(nw, nh, x as int, y as int);
                    lemma_cells_fit(old_width, old_height);
                    lemma_cells_fit(new_width, new_height);
                }
                let old_idx = (y as usize) * (old_width as usize) + (x as usize);
                let new_idx = (y as usize) * (new_width as usize) + (x as usize);
                let c = cell_at(&self.current_canvas.buffer, old_idx);
                let n = cell_at(&self.next_canvas.buffer, old_idx);
                proof {
                    lemma_partial_resize_step(cur, ow, nw, nh, min_width as int, min_height as int, y as int, x as int);
                    lemma_partial_resize_step(nxt, ow, nw, nh, min_width as int, min_height as int, y as int, x as int);
                }
                new_current.set(new_idx, c);
                new_next.set(new_idx, n);
                x = x + 1;
            }
            proof {
                lemma_partial_resize_row(cur, ow, nw, nh, min_width as int, min_height as int, y as int);
                lemma_partial_resize_row(nxt, ow, nw, nh, min_width as int, min_height as int, y as int);
            }
            y = y + 1;
        }
        proof {
            lemma_partial_resize_done(cur, ow, oh, nw, nh, min_width as int, min_height as int);
            lemma_partial_resize_done(nxt, ow, oh, nw, nh, min_width as int, min_height as int);
        }
        self.current_canvas = Canvas { width: new_width, height: new_height, buffer: new_current };
        self.next_canvas = Canvas { width: new_width, height: new_height, buffer: new_next };
        self.is_first_frame = true;
    }

    /// Carries out `cmd`, giving the operations to send to the terminal.
    pub fn execute(&mut self, cmd: Cmd) -> (ops: Vec<TermOp>)
        requires
            old(self).wf(),
        ensures
            final(self).wf(),
            final(self)@ == execute_spec(old(self)@, cmd),
            ops@ == execute_ops(old(self)@, cmd),
    {
        match cmd {
            Cmd::Draw(cell_update) => {
                self.draw(cell_update);
                Vec::new()
            },
            Cmd::Clear => {
                self.clear();
                Vec::new()
            },
            Cmd::Flush => self.flush(),
            Cmd::QuerySize => Vec::new(),
        }
    }
}

// ---------------------------------------------------------------------------
// Laws of the display
// ---------------------------------------------------------------------------

/// The terminal keeps showing the current canvas: if, before a command, the
/// terminal shows the current canvas (or the next frame is to be written
/// whole), then after the command and the operations it sends, the same
/// holds of the new state.
pub proof fn lemma_execute_keeps_terminal(v: DisplayView, cmd: Cmd, t: Terminal)
    requires
        view_wf(v),
        t.screen.len() == v.width * v.height,
        !v.first_frame ==> t.screen == v.current,
    ensures
        ({
            let v2 = execute_spec(v, cmd);
            let t2 = apply_ops(t, v.width as int, v.height as int, execute_ops(v, cmd));
            &&& view_wf(v2)
            &&& v2.width == v.width && v2.height == v.height
            &&& t2.screen.len() == v2.width * v2.height
            &&& !v2.first_frame ==> t2.screen == v2.current
        }),
{
    assert(apply_ops(t, v.width as int, v.height as int, Seq::<TermOp>::empty()) == t);
    match cmd {
        Cmd::Draw(u) => {
            if u.pos.x < v.width && u.pos.y < v.height {
                lemma_grid_position(v.width as int, v.height as int, u.pos.x as int, u.pos.y as int);
            }
        },
        Cmd::Flush => {
            lemma_frame_shows_next(v.width, v.height, v.current, v.next, v.first_frame, t);
        },
        _ => {},
    }
}

/// A flush that follows no change sends nothing: on a frame written by
/// difference, a canvas equal to what the terminal shows gives no
/// operations.
pub proof fn lemma_unchanged_frame_is_silent(w: nat, h: nat, c: Seq<Cell>)
    requires
        c.len() == w * h,
    ensures
        frame_ops(w, h, c, c, false) == Seq::<TermOp>::empty(),
{
    lemma_unchanged_prefix(w, c, w * h);
}

proof fn lemma_unchanged_prefix(w: nat, c: Seq<Cell>, k: nat)
    requires
        k <= c.len(),
    ensures
        render_prefix(w, c, c, false, k).0 == Seq::<TermOp>::empty(),
    decreases k,
{
    if k > 0 {
        lemma_unchanged_prefix(w, c, (k - 1) as nat);
        let (ops, st) = render_prefix(w, c, c, false, (k - 1) as nat);
        assert(ops + Seq::<TermOp>::empty() =~= Seq::<TermOp>::empty());
    }
}

/// Growing a canvas and shrinking it back gives the canvas it was.
pub proof fn lemma_resize_round_trip(buf: Seq<Cell>, w: nat, h: nat, big_w: nat, big_h: nat)
    requires
        buf.len() == w * h,
        w <= big_w,
        h <= big_h,
    ensures
        resized(resized(buf, w, h, big_w, big_h), big_w, big_h, w, h) == buf,
{
    let big = resized(buf, w, h, big_w, big_h);
    let back = resized(big, big_w, big_h, w, h);
    assert forall|k: int| 0 <= k < back.len() implies back[k] == buf[k] by {
        assert(w > 0) by (nonlinear_arith)
            requires
                0 <= k < w * h,
        ;
        lemma_grid_split(w as int, h as int, k);
        let x = k % (w as int);
        let y = k / (w as int);
        lemma_grid_position(big_w as int, big_h as int, x, y);
    }
    assert(back =~= buf);
}

/// After a resize the display reports the new size, and the next frame is
/// written whole.
pub proof fn lemma_resize_size(v: DisplayView, w: nat, h: nat)
    ensures
        resize_spec(v, w, h).width == w,
        resize_spec(v, w, h).height == h,
        resize_spec(v, w, h).first_frame,
{
}

/// Drawing is buffered: no command but `Flush` sends anything to the
/// terminal.
pub proof fn lemma_only_flush_sends(v: DisplayView, cmd: Cmd)
    requires
        !(cmd is Flush),
    ensures
        execute_ops(v, cmd) == Seq::<TermOp>::empty(),
{
}

/// A clear followed by a flush leaves the terminal's canvas blank.
pub proof fn lemma_clear_then_flush(v: DisplayView)
    ensures
        execute_spec(execute_spec(v, Cmd::Clear), Cmd::Flush).current == blank_buffer(v.next.len()),
{
}

/// What is drawn is what the terminal shows: drawing a cell inside the
/// canvas and then flushing leaves the terminal (kept in step with the
/// display, as `lemma_execute_keeps_terminal` says) showing that cell's
/// glyph and colours at its position.
pub proof fn lemma_draw_then_flush(v: DisplayView, u: CellUpdate, t: Terminal)
    requires
        view_wf(v),
        t.screen.len() == v.width * v.height,
        !v.first_frame ==> t.screen == v.current,
        u.pos.x < v.width,
        u.pos.y < v.height,
    ensures
        ({
            let w = v.width as int;
            let h = v.height as int;
            let v1 = execute_spec(v, Cmd::Draw(u));
            let t1 = apply_ops(t, w, h, execute_ops(v, Cmd::Draw(u)));
            let t2 = apply_ops(t1, w, h, execute_ops(v1, Cmd::Flush));
            t2.screen[grid_index(w, u.pos.x as int, u.pos.y as int)] == cell_of(u)
        }),
{
    let w = v.width as int;
    let h = v.height as int;
    lemma_execute_keeps_terminal(v, Cmd::Draw(u), t);
    let v1 = execute_spec(v, Cmd::Draw(u));
    let t1 = apply_ops(t, w, h, execute_ops(v, Cmd::Draw(u)));
    lemma_execute_keeps_terminal(v1, Cmd::Flush, t1);
    lemma_grid_position(w, h, u.pos.x as int, u.pos.y as int);
}

/// A flush right after a flush sends nothing.
pub proof fn lemma_flush_twice_silent(v: DisplayView)
    requires
        view_wf(v),
    ensures
        flush_ops(flush_spec(v)) == Seq::<TermOp>::empty(),
{
    lemma_unchanged_frame_is_silent(v.width, v.height, v.next);
}

/// Growing the display and shrinking it back gives the size and both
/// canvases as they were.
pub proof fn lemma_resize_back(v: DisplayView, big_w: nat, big_h: nat)
    requires
        view_wf(v),
        v.width <= big_w,
        v.height <= big_h,
    ensures
        ({
            let back = resize_spec(resize_spec(v, big_w, big_h), v.width, v.height);
            &&& back.width == v.width
            &&& back.height == v.height
            &&& back.current == v.current
            &&& back.next == v.next
        }),
{
    lemma_resize_round_trip(v.current, v.width, v.height, big_w, big_h);
    lemma_resize_round_trip(v.next, v.width, v.height, big_w, big_h);
}

/// The glyphs that a sequence of operations writes, in order.
pub open spec fn printed(ops: Seq<TermOp>) -> Seq<char>
    decreases ops.len(),
{
    if ops.len() == 0 {
        seq![]
    } else {
        match ops.last() {
            TermOp::Print(g) => printed(ops.drop_last()).push(g),
            _ => printed(ops.drop_last()),
        }
    }
}

proof fn lemma_printed_concat(a: Seq<TermOp>, b: Seq<TermOp>)
    ensures
        printed(a + b) == printed(a) + printed(b),
    decreases b.len(),
{
    if b.len() == 0 {
        assert(a + b =~= a);
        assert(printed(a) + printed(b) =~= printed(a));
    } else {
        assert((a + b).drop_last() =~= a + b.drop_last());
        lemma_printed_concat(a, b.drop_last());
        assert((a + b).last() == b.last());
        match b.last() {
            TermOp::Print(g) => {
                assert(printed(a) + printed(b) =~= (printed(a) + printed(b.drop_last())).push(g));
            },
            _ => {},
        }
    }
}

proof fn lemma_printed_single(op: TermOp)
    ensures
        printed(seq![op]) == (match op {
            TermOp::Print(g) => seq![g],
            _ => Seq::<char>::empty(),
        }),
{
    assert(seq![op].drop_last() =~= Seq::<TermOp>::empty());
    assert(printed(Seq::<TermOp>::empty()) == Seq::<char>::empty());
    assert(seq![op].last() == op);
    if let TermOp::Print(g) = op {
        assert(Seq::<char>::empty().push(g) =~= seq![g]);
    }
}

/// The glyphs of a buffer, in order.
pub open spec fn glyphs(buf: Seq<Cell>) -> Seq<char> {
    buf.map_values(|c: Cell| c.glyph)
}

proof fn lemma_first_frame_prefix(w: nat, cur: Seq<Cell>, nxt: Seq<Cell>, k: nat)
    requires
        k <= nxt.len(),
        k <= cur.len(),
    ensures
        printed(render_prefix(w, cur, nxt, true, k).0) == glyphs(nxt.take(k as int)),
    decreases k,
{
    if k == 0 {
        assert(glyphs(nxt.take(0)) =~= Seq::<char>::empty());
    } else {
        lemma_first_frame_prefix(w, cur, nxt, (k - 1) as nat);
        let (ops, st) = render_prefix(w, cur, nxt, true, (k - 1) as nat);
        let j = k - 1;
        let x = (j % (w as int)) as u16;
        let y = (j / (w as int)) as u16;
        let n = nxt[j];
        let mv = if st.cursor == Some((x, y)) {
            Seq::<TermOp>::empty()
        } else {
            seq![TermOp::MoveTo(x, y)]
        };
        let (fo, f2) = color_ops(st.fg, n.fg_color, true);
        let (bo, b2) = color_ops(st.bg, n.bg_color, false);
        let p = seq![TermOp::Print(n.glyph)];
        if st.cursor == Some((x, y)) {
            assert(printed(mv) =~= Seq::<char>::empty());
        } else {
            lemma_printed_single(TermOp::MoveTo(x, y));
        }
        if fo.len() == 1 {
            assert(fo =~= seq![fo[0]]);
            lemma_printed_single(fo[0]);
        } else {
            assert(fo =~= Seq::<TermOp>::empty());
        }
        if bo.len() == 1 {
            assert(bo =~= seq![bo[0]]);
            lemma_printed_single(bo[0]);
        } else {
            assert(bo =~= Seq::<TermOp>::empty());
        }
        lemma_printed_single(TermOp::Print(n.glyph));
        lemma_printed_concat(mv, fo);
        lemma_printed_concat(mv + fo, bo);
        lemma_printed_concat(mv + fo + bo, p);
        lemma_printed_concat(ops, mv + fo + bo + p);
        assert(glyphs(nxt.take(k as int)) =~= glyphs(nxt.take(j)).push(n.glyph));
    }
}

/// A frame written whole writes every cell of the next canvas, row by row:
/// the glyphs it prints are those of the canvas, in order.
pub proof fn lemma_first_frame_writes_all(
    w: nat,
    h: nat,
    cur: Seq<Cell>,
    nxt: Seq<Cell>,
)
    requires
        cur.len() == w * h,
        nxt.len() == w * h,
    ensures
        printed(frame_ops(w, h, cur, nxt, true)) == glyphs(nxt),
{
    lemma_first_frame_prefix(w, cur, nxt, w * h);
    assert(nxt.take((w * h) as int) =~= nxt);
}

/// The flush after a resize redraws the whole screen: it prints every cell
/// of the resized canvas, row by row, whether it changed or not.
pub proof fn lemma_resize_then_flush_redraws(v: DisplayView, w: nat, h: nat)
    requires
        view_wf(v),
    ensures
        printed(flush_ops(resize_spec(v, w, h))) == glyphs(resize_spec(v, w, h).next),
{
    let v2 = resize_spec(v, w, h);
    lemma_first_frame_writes_all(w, h, v2.current, v2.next);
}

} // verus!
