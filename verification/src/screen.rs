//! The screen buffer and diff engine: a double-buffered cell grid whose
//! flush yields the minimal stream of rendering commands.

use vstd::prelude::*;

use crate::attr::{Attribute, Color};
use crate::char_width;
use crate::display_width_of_char;
use crate::terminal::Command;

verus! {

/// One cell of the grid: a character and the attribute it is drawn
/// with.
#[derive(Clone, Copy, Debug, PartialEq, Eq, Structural)]
pub struct Cell {
    pub ch: char,
    pub attribute: Attribute,
}

impl Cell {
    /// The cell a cleared position shows: a space with default
    /// attributes.
    pub open spec fn spec_default() -> Cell {
        Cell { ch: ' ', attribute: Attribute::spec_default() }
    }

    /// A cell showing `ch` with default attributes.
    pub fn new(ch: char) -> (c: Cell)
        ensures
            c.ch == ch,
            c.attribute == Attribute::spec_default(),
    {
        Cell { ch, attribute: Attribute::default() }
    }

    /// This cell with the given foreground color.
    pub fn fg(self, fg: Color) -> (c: Cell)
        ensures
            c == (Cell { attribute: Attribute { fg, ..self.attribute }, ..self }),
    {
        Cell { attribute: Attribute { fg, ..self.attribute }, ..self }
    }

    /// This cell with the given background color.
    pub fn bg(self, bg: Color) -> (c: Cell)
        ensures
            c == (Cell { attribute: Attribute { bg, ..self.attribute }, ..self }),
    {
        Cell { attribute: Attribute { bg, ..self.attribute }, ..self }
    }

    /// This cell with the given text effects.
    pub fn effect(self, effect: crate::attr::Effect) -> (c: Cell)
        ensures
            c == (Cell { attribute: Attribute { effect, ..self.attribute }, ..self }),
    {
        Cell { attribute: Attribute { effect, ..self.attribute }, ..self }
    }

    /// This cell with the given whole attribute.
    pub fn attribute(self, attribute: Attribute) -> (c: Cell)
        ensures
            c == (Cell { attribute, ..self }),
    {
        Cell { attribute, ..self }
    }
}

impl Default for Cell {
    fn default() -> (c: Cell)
        ensures
            c == Cell::spec_default(),
    {
        Cell { ch: ' ', attribute: Attribute::default() }
    }
}

/// The cursor: a position and whether it is visible.
#[derive(Clone, Copy, Debug, PartialEq, Eq, Structural)]
pub struct Cursor {
    pub x: usize,
    pub y: usize,
    pub visible: bool,
}

/// The index of position (x, y) in a row-major grid of width `w`.
pub open spec fn grid_index(w: nat, x: nat, y: nat) -> int {
    x + y * w as int
}

/// The grid after writing `cell` at (x, y): unchanged when the position
/// is out of bounds.
pub open spec fn put_cell_spec(
    cells: Seq<Cell>,
    w: nat,
    h: nat,
    x: nat,
    y: nat,
    cell: Cell,
) -> Seq<Cell> {
    if x < w && y < h {
        cells.update(grid_index(w, x, y), cell)
    } else {
        cells
    }
}

/// The grid after printing the characters of `s` starting at (x, y)
/// with attribute `attr`: each character is placed and the column
/// advances by its display width. Nothing wraps; characters falling
/// off the right edge are dropped.
pub open spec fn print_spec(
    cells: Seq<Cell>,
    w: nat,
    h: nat,
    x: nat,
    y: nat,
    s: Seq<char>,
    attr: Attribute,
) -> Seq<Cell>
    decreases s.len(),
{
    if s.len() == 0 {
        cells
    } else {
        let placed = put_cell_spec(cells, w, h, x, y, Cell { ch: s[0], attribute: attr });
        print_spec(placed, w, h, x + char_width(s[0]), y, s.drop_first(), attr)
    }
}

/// In-bounds positions are inside the grid.
proof fn lemma_grid_index_bounds(w: nat, h: nat, x: nat, y: nat)
    requires
        x < w,
        y < h,
    ensures
        0 <= grid_index(w, x, y) < w * h,
        grid_index(w, x, y) == x + y * w,
{
    assert(x + y * w < w * h) by (nonlinear_arith)
        requires
            x < w,
            y < h,
    ;
}

/// Printing at or beyond the right edge changes nothing.
proof fn lemma_print_spec_off_edge(
    cells: Seq<Cell>,
    w: nat,
    h: nat,
    x: nat,
    y: nat,
    s: Seq<char>,
    attr: Attribute,
)
    requires
        x >= w,
    ensures
        print_spec(cells, w, h, x, y, s, attr) == cells,
    decreases s.len(),
{
    if s.len() > 0 {
        lemma_print_spec_off_edge(cells, w, h, x + char_width(s[0]), y, s.drop_first(), attr);
    }
}

/// The screen: the cell grid the application paints, the desired
/// cursor, and the shadow of what the terminal currently shows.
#[derive(Clone, Debug)]
pub struct Screen {
    pub width: usize,
    pub height: usize,
    /// The grid, in row-major order: (x, y) lives at `x + y * width`.
    pub cells: Vec<Cell>,
    pub cursor: Cursor,
    /// The shadow grid: what the terminal currently shows.
    pub painted_cells: Vec<Cell>,
    /// The cursor state the terminal currently shows.
    pub painted_cursor: Cursor,
}

impl Screen {
    /// The shadow grid: what the terminal shows after the commands of
    /// the last flush were written.
    pub open spec fn painted(self) -> Seq<Cell> {
        self.painted_cells@
    }

    /// The cursor state the terminal shows.
    pub open spec fn painted_cur(self) -> Cursor {
        self.painted_cursor
    }

    /// Well-formedness: both grids hold exactly width times height
    /// cells, and that product fits the machine word.
    pub open spec fn wf(self) -> bool {
        &&& self.cells@.len() == self.width * self.height
        &&& self.painted().len() == self.width * self.height
        &&& self.width * self.height <= usize::MAX
    }

    /// A fresh screen: both grids all default cells, both cursors at
    /// the origin and visible.
    pub fn new(width: usize, height: usize) -> (s: Screen)
        requires
            width * height <= usize::MAX,
        ensures
            s.wf(),
            s.width == width,
            s.height == height,
            forall|i: int| 0 <= i < s.cells@.len() ==> s.cells@[i] == Cell::spec_default(),
            s.painted() == s.cells@,
            s.cursor == (Cursor { x: 0, y: 0, visible: true }),
            s.painted_cur() == s.cursor,
    {
        let n = width * height;
        let cells = default_cells(n);
        let painted_cells = default_cells(n);
        proof {
            assert(painted_cells@ =~= cells@);
        }
        Screen {
            width,
            height,
            cells,
            cursor: Cursor { x: 0, y: 0, visible: true },
            painted_cells,
            painted_cursor: Cursor { x: 0, y: 0, visible: true },
        }
    }

    /// The grid index of (x, y), or None when out of bounds.
    fn index(&self, x: usize, y: usize) -> (r: Option<usize>)
        requires
            self.wf(),
        ensures
            match r {
                Option::Some(i) => x < self.width && y < self.height && i == grid_index(
                    self.width as nat,
                    x as nat,
                    y as nat,
                ) && i < self.width * self.height,
                Option::None => !(x < self.width && y < self.height),
            },
    {
        if self.width <= x || self.height <= y {
            None
        } else {
            proof {
                lemma_grid_index_bounds(self.width as nat, self.height as nat, x as nat, y as nat);
            }
            Some(x + y * self.width)
        }
    }

    /// Writes `cell` at (x, y). Out-of-bounds writes change nothing.
    pub fn put_cell(&mut self, x: usize, y: usize, cell: Cell)
        requires
            old(self).wf(),
        ensures
            final(self).wf(),
            final(self).cells@ == put_cell_spec(
                old(self).cells@,
                old(self).width as nat,
                old(self).height as nat,
                x as nat,
                y as nat,
                cell,
            ),
            x < old(self).width && y < old(self).height ==> final(self).cells@[x + y * old(
                self,
            ).width] == cell,
            final(self).width == old(self).width,
            final(self).height == old(self).height,
            final(self).cursor == old(self).cursor,
            final(self).painted() == old(self).painted(),
            final(self).painted_cur() == old(self).painted_cur(),
    {
        match self.index(x, y) {
            Some(i) => {
                self.cells.set(i, cell);
            },
            None => {},
        }
    }

    /// Prints `s` at (x, y) with attribute `attr`: each character is
    /// placed and the column advances by the character's display
    /// width. Nothing wraps; what falls off the right edge is dropped.
    pub fn print(&mut self, x: usize, y: usize, s: &str, attr: Attribute)
        requires
            old(self).wf(),
        ensures
            final(self).wf(),
            final(self).cells@ == print_spec(
                old(self).cells@,
                old(self).width as nat,
                old(self).height as nat,
                x as nat,
                y as nat,
                s@,
                attr,
            ),
            final(self).width == old(self).width,
            final(self).height == old(self).height,
            final(self).cursor == old(self).cursor,
            final(self).painted() == old(self).painted(),
            final(self).painted_cur() == old(self).painted_cur(),
    {
        let bytes = s.as_bytes();
        proof {
            vstd::utf8::encode_utf8_valid_utf8(s@);
            vstd::utf8::encode_utf8_decode_utf8(s@);
            assert(bytes@.skip(0) =~= bytes@);
            assert(s@.skip(0) =~= s@);
        }
        let bl = bytes.len();
        let mut pos: usize = 0;
        let mut cx: usize = x;
        let ghost mut done: int = 0;
        let ghost w = old(self).width as nat;
        let ghost h = old(self).height as nat;
        while pos < bl
            invariant
                self.wf(),
                self.width == old(self).width,
                self.height == old(self).height,
                self.cursor == old(self).cursor,
                self.painted() == old(self).painted(),
                self.painted_cur() == old(self).painted_cur(),
                w == self.width as nat,
                h == self.height as nat,
                bytes@ == vstd::utf8::encode_utf8(s@),
                bl == bytes@.len(),
                0 <= pos <= bl,
                0 <= done <= s@.len(),
                vstd::utf8::valid_utf8(bytes@.skip(pos as int)),
                vstd::utf8::decode_utf8(bytes@.skip(pos as int)) == s@.skip(done),
                cx as nat >= x as nat,
                print_spec(old(self).cells@, w, h, x as nat, y as nat, s@, attr) == print_spec(
                    self.cells@,
                    w,
                    h,
                    cx as nat,
                    y as nat,
                    s@.skip(done),
                    attr,
                ),
            decreases bl - pos,
        {
            let ghost suffix = bytes@.skip(pos as int);
            proof {
                crate::utf8::lemma_first_char_of_valid_utf8(suffix);
            }
            match crate::utf8::decode_char_at(bytes, pos) {
                Some((n, c)) => {
                    proof {
                        assert(c == s@.skip(done)[0]);
                        assert(s@.skip(done).drop_first() =~= s@.skip(done + 1));
                        assert(suffix.skip(n as int) =~= bytes@.skip(pos as int + n as int));
                    }
                    let cw = display_width_of_char(c);
                    self.put_cell(cx, y, Cell { ch: c, attribute: attr });
                    pos = pos + n;
                    proof {
                        done = done + 1;
                    }
                    if cx < self.width && self.width - cx <= cw {
                        // every later column is at or past the edge:
                        // the rest of the string is dropped
                        proof {
                            lemma_print_spec_off_edge(
                                self.cells@,
                                w,
                                h,
                                cx as nat + char_width(c),
                                y as nat,
                                s@.skip(done),
                                attr,
                            );
                        }
                        return ;
                    }
                    if cx >= self.width {
                        proof {
                            lemma_print_spec_off_edge(
                                self.cells@,
                                w,
                                h,
                                cx as nat + char_width(c),
                                y as nat,
                                s@.skip(done),
                                attr,
                            );
                            lemma_print_spec_off_edge(
                                self.cells@,
                                w,
                                h,
                                cx as nat,
                                y as nat,
                                s@.skip(done),
                                attr,
                            );
                        }
                    } else {
                        cx = cx + cw;
                    }
                },
                None => {
                    proof {
                        assert(false);
                    }
                },
            }
        }
        proof {
            assert(s@.skip(done) =~= Seq::<char>::empty());
        }
    }

    /// Sets every cell's character to space, keeping its attribute.
    /// The shadow is untouched, so the next flush emits the erases.
    pub fn clear(&mut self)
        requires
            old(self).wf(),
        ensures
            final(self).wf(),
            final(self).cells@.len() == old(self).cells@.len(),
            forall|i: int|
                0 <= i < final(self).cells@.len() ==> final(self).cells@[i] == (Cell {
                    ch: ' ',
                    attribute: old(self).cells@[i].attribute,
                }),
            final(self).width == old(self).width,
            final(self).height == old(self).height,
            final(self).cursor == old(self).cursor,
            final(self).painted() == old(self).painted(),
            final(self).painted_cur() == old(self).painted_cur(),
    {
        let n = self.cells.len();
        let mut i: usize = 0;
        while i < n
            invariant
                self.wf(),
                n == self.cells@.len(),
                0 <= i <= n,
                self.width == old(self).width,
                self.height == old(self).height,
                self.cursor == old(self).cursor,
                self.painted() == old(self).painted(),
                self.painted_cur() == old(self).painted_cur(),
                self.cells@.len() == old(self).cells@.len(),
                forall|j: int|
                    0 <= j < i ==> self.cells@[j] == (Cell {
                        ch: ' ',
                        attribute: old(self).cells@[j].attribute,
                    }),
                forall|j: int| i <= j < n ==> self.cells@[j] == old(self).cells@[j],
            decreases n - i,
        {
            let c = self.cells[i];
            self.cells.set(i, Cell { ch: ' ', attribute: c.attribute });
            i = i + 1;
        }
    }

    /// Moves the desired cursor. The change reaches the terminal at
    /// the next flush.
    pub fn move_cursor(&mut self, x: usize, y: usize)
        requires
            old(self).wf(),
        ensures
            final(self).wf(),
            final(self).cursor == (Cursor { x, y, visible: old(self).cursor.visible }),
            final(self).cells@ == old(self).cells@,
            final(self).width == old(self).width,
            final(self).height == old(self).height,
            final(self).painted() == old(self).painted(),
            final(self).painted_cur() == old(self).painted_cur(),
    {
        self.cursor.x = x;
        self.cursor.y = y;
    }

    /// Makes the desired cursor invisible.
    pub fn hide_cursor(&mut self)
        requires
            old(self).wf(),
        ensures
            final(self).wf(),
            final(self).cursor == (Cursor { visible: false, ..old(self).cursor }),
            final(self).cells@ == old(self).cells@,
            final(self).width == old(self).width,
            final(self).height == old(self).height,
            final(self).painted() == old(self).painted(),
            final(self).painted_cur() == old(self).painted_cur(),
    {
        self.cursor.visible = false;
    }

    /// Makes the desired cursor visible.
    pub fn show_cursor(&mut self)
        requires
            old(self).wf(),
        ensures
            final(self).wf(),
            final(self).cursor == (Cursor { visible: true, ..old(self).cursor }),
            final(self).cells@ == old(self).cells@,
            final(self).width == old(self).width,
            final(self).height == old(self).height,
            final(self).painted() == old(self).painted(),
            final(self).painted_cur() == old(self).painted_cur(),
    {
        self.cursor.visible = true;
    }

    /// The width and height of the screen.
    pub fn size(&self) -> (r: (usize, usize))
        ensures
            r.0 == self.width,
            r.1 == self.height,
    {
        (self.width, self.height)
    }

    /// Replaces the grids with fresh ones of the new dimensions,
    /// keeping the top-left subrectangle common to the old and new
    /// sizes, both in the cell grid and in the shadow.
    pub fn resize(&mut self, width: usize, height: usize)
        requires
            old(self).wf(),
            width * height <= usize::MAX,
        ensures
            final(self).wf(),
            final(self).width == width,
            final(self).height == height,
            final(self).cells@ == copy_cells_spec(
                old(self).cells@,
                old(self).width as nat,
                old(self).height as nat,
                width as nat,
                height as nat,
            ),
            final(self).painted() == copy_cells_spec(
                old(self).painted(),
                old(self).width as nat,
                old(self).height as nat,
                width as nat,
                height as nat,
            ),
            final(self).cursor == old(self).cursor,
            final(self).painted_cur() == old(self).painted_cur(),
    {
        let new_cells = copy_cells(
            &self.cells,
            self.width,
            self.height,
            width,
            height,
            Ghost(old(self).cells@),
        );
        let new_painted = copy_cells(
            &self.painted_cells,
            self.width,
            self.height,
            width,
            height,
            Ghost(old(self).painted()),
        );
        self.cells = new_cells;
        self.painted_cells = new_painted;
        self.width = width;
        self.height = height;
    }
}

/// The grid of the new dimensions after a resize: positions inside the
/// old bounds keep their cell, the rest are default.
pub open spec fn copy_cells_spec(
    old_cells: Seq<Cell>,
    old_w: nat,
    old_h: nat,
    w: nat,
    h: nat,
) -> Seq<Cell> {
    Seq::new(
        w * h,
        |i: int|
            {
                let x = i % (w as int);
                let y = i / (w as int);
                if x < old_w && y < old_h {
                    old_cells[grid_index(old_w, x as nat, y as nat)]
                } else {
                    Cell::spec_default()
                }
            },
    )
}

/// A vector of `n` default cells.
fn default_cells(n: usize) -> (r: Vec<Cell>)
    ensures
        r@.len() == n,
        forall|i: int| 0 <= i < n ==> r@[i] == Cell::spec_default(),
{
    let mut r: Vec<Cell> = Vec::new();
    let mut i: usize = 0;
    while i < n
        invariant
            0 <= i <= n,
            r@.len() == i,
            forall|j: int| 0 <= j < i ==> r@[j] == Cell::spec_default(),
        decreases n - i,
    {
        r.push(Cell::default());
        i = i + 1;
    }
    r
}

/// The running state of the diff walk that flush performs: the
/// commands emitted so far, both grids (the walk clips wide characters
/// in the last column and fills the shadow), and the attribute and
/// cursor position the terminal is left in.
#[verifier::ext_equal]
pub struct FlushSt {
    pub cmds: Seq<Command>,
    pub cells: Seq<Cell>,
    pub painted: Seq<Cell>,
    pub last_x: int,
    pub last_y: int,
    pub last_attr: Attribute,
    pub wide: bool,
}

/// The commands that set a whole attribute: a reset, then foreground,
/// background and effects.
pub open spec fn sgr_cmds(a: Attribute) -> Seq<Command> {
    seq![Command::ResetAttr, Command::Fg(a.fg), Command::Bg(a.bg), Command::Effect(a.effect)]
}

/// True when a command changes colors or effects.
pub open spec fn is_sgr(c: Command) -> bool {
    match c {
        Command::ResetAttr => true,
        Command::Fg(_) => true,
        Command::Bg(_) => true,
        Command::Effect(_) => true,
        _ => false,
    }
}

/// One step of the diff walk, at index `i` of a grid of width `w`.
/// A fresh row forgets the wide flag. The cell after an emitted wide
/// character is suppressed: the terminal already drew that column, so
/// only its shadow is noted. An unchanged cell emits nothing. A changed
/// cell emits its attribute when it differs from the running one, a
/// cursor move unless the terminal's cursor already sits there, and the
/// character itself; a wide character in the last column is clipped to
/// a space.
pub open spec fn flush_cell(w: nat, st: FlushSt, i: int) -> FlushSt {
    let x = i % (w as int);
    let y = i / (w as int);
    let st = if x == 0 {
        FlushSt { wide: false, ..st }
    } else {
        st
    };
    if st.wide {
        FlushSt {
            painted: st.painted.update(
                i,
                Cell { ch: ' ', attribute: st.cells[i - 1].attribute },
            ),
            wide: false,
            ..st
        }
    } else if st.painted[i] == st.cells[i] {
        st
    } else {
        let cell0 = st.cells[i];
        let attr_cmds = if cell0.attribute != st.last_attr {
            sgr_cmds(cell0.attribute)
        } else {
            Seq::<Command>::empty()
        };
        let move_cmds = if st.last_x != x || st.last_y != y {
            seq![Command::MoveCursor { x: x as usize, y: y as usize }]
        } else {
            Seq::<Command>::empty()
        };
        let clip = char_width(cell0.ch) == 2 && x == w - 1;
        let ch = if clip {
            ' '
        } else {
            cell0.ch
        };
        let newcell = Cell { ch, attribute: cell0.attribute };
        FlushSt {
            cmds: st.cmds + attr_cmds + move_cmds + seq![Command::PutChar(ch)],
            cells: if clip {
                st.cells.update(i, newcell)
            } else {
                st.cells
            },
            painted: st.painted.update(i, newcell),
            last_x: x + 1 + (if char_width(ch) == 2 {
                1int
            } else {
                0int
            }),
            last_y: y,
            last_attr: cell0.attribute,
            wide: char_width(ch) == 2,
        }
    }
}

/// The diff walk over the index range `[i, j)`.
pub open spec fn flush_range(w: nat, st: FlushSt, i: int, j: int) -> FlushSt
    decreases j - i,
{
    if i >= j {
        st
    } else {
        flush_range(w, flush_cell(w, st, i), i + 1, j)
    }
}

/// The state the diff walk starts from: one attribute reset emitted,
/// the running attribute default, and no position the terminal's
/// cursor is known to sit at.
pub open spec fn flush_init(s: Screen) -> FlushSt {
    FlushSt {
        cmds: seq![Command::ResetAttr],
        cells: s.cells@,
        painted: s.painted(),
        last_x: usize::MAX as int,
        last_y: usize::MAX as int,
        last_attr: Attribute::spec_default(),
        wide: false,
    }
}

/// The state after the whole diff walk of a screen.
pub open spec fn flush_result(s: Screen) -> FlushSt {
    flush_range(s.width as nat, flush_init(s), 0, s.cells@.len() as int)
}

/// The trailing cursor reconciliation: a visibility change when the
/// desired and shown visibility differ, then always a move to the
/// desired position.
pub open spec fn cursor_cmds(desired: Cursor, shown: Cursor) -> Seq<Command> {
    (if desired.visible && !shown.visible {
        seq![Command::ShowCursor]
    } else if !desired.visible && shown.visible {
        seq![Command::HideCursor]
    } else {
        Seq::<Command>::empty()
    }) + seq![Command::MoveCursor { x: desired.x, y: desired.y }]
}

/// Extending the walk by one index applies one step to its end state.
pub proof fn lemma_flush_range_snoc(w: nat, st: FlushSt, i: int, j: int)
    requires
        i <= j,
    ensures
        flush_range(w, st, i, j + 1) == flush_cell(w, flush_range(w, st, i, j), j),
    decreases j - i,
{
    if i < j {
        lemma_flush_range_snoc(w, flush_cell(w, st, i), i + 1, j);
        assert(flush_range(w, st, i, j + 1) == flush_range(w, flush_cell(w, st, i), i + 1, j + 1));
        assert(flush_range(w, st, i, j) == flush_range(w, flush_cell(w, st, i), i + 1, j));
    } else {
        assert(flush_range(w, st, i, j + 1) == flush_range(w, flush_cell(w, st, i), i + 1, j + 1));
        assert(flush_range(w, flush_cell(w, st, i), i + 1, j + 1) == flush_cell(w, st, i));
        assert(flush_range(w, st, i, j) == st);
    }
}

/// The walk leaves the lengths of both grids unchanged.
pub proof fn lemma_flush_range_len(w: nat, st: FlushSt, i: int, j: int)
    requires
        0 <= i,
        j <= st.cells.len(),
        st.painted.len() == st.cells.len(),
    ensures
        flush_range(w, st, i, j).cells.len() == st.cells.len(),
        flush_range(w, st, i, j).painted.len() == st.painted.len(),
    decreases j - i,
{
    if i < j {
        lemma_flush_range_len(w, flush_cell(w, st, i), i + 1, j);
        assert(flush_range(w, st, i, j) == flush_range(w, flush_cell(w, st, i), i + 1, j));
        assert(flush_cell(w, st, i).cells.len() == st.cells.len());
        assert(flush_cell(w, st, i).painted.len() == st.painted.len());
    } else {
        assert(flush_range(w, st, i, j) == st);
    }
}

/// How row-major indices decompose into coordinates.
proof fn lemma_grid_index_decomp(w: nat, x: nat, y: nat)
    requires
        x < w,
    ensures
        (x + y * w as int) % (w as int) == x,
        (x + y * w as int) / (w as int) == y,
{
    assert((x + y * w as int) % (w as int) == x && (x + y * w as int) / (w as int) == y)
        by (nonlinear_arith)
        requires
            0 <= x < w,
            0 <= y,
    ;
}

impl Screen {
    /// Walks the grid in row-major order and returns the ordered
    /// command list that reconciles the terminal with the desired
    /// cells and cursor: the diff walk's commands, then the trailing
    /// cursor block. The shadow is updated to what was just emitted;
    /// a wide character in the last column is clipped to a space in
    /// the grid itself.
    pub fn flush_commands(&mut self) -> (r: Vec<Command>)
        requires
            old(self).wf(),
        ensures
            final(self).wf(),
            r@ == flush_result(*old(self)).cmds + cursor_cmds(
                old(self).cursor,
                old(self).painted_cur(),
            ),
            final(self).cells@ == flush_result(*old(self)).cells,
            final(self).painted() == flush_result(*old(self)).painted,
            final(self).width == old(self).width,
            final(self).height == old(self).height,
            final(self).cursor == old(self).cursor,
            final(self).painted_cur() == old(self).cursor,
    {
        let ghost init = flush_init(*old(self));
        let ghost w = old(self).width as nat;
        let ghost n = old(self).cells@.len() as int;
        let mut commands: Vec<Command> = Vec::new();
        let mut last_x: usize = usize::MAX;
        let mut last_y: usize = usize::MAX;
        let mut last_attr = Attribute::default();
        commands.push(Command::ResetAttr);
        proof {
            assert(commands@ =~= init.cmds);
            assert(flush_range(w, init, 0, 0) == init);
        }
        let mut y: usize = 0;
        while y < self.height
            invariant
                old(self).wf(),
                self.wf(),
                w == self.width as nat,
                n == self.width * self.height,
                self.width == old(self).width,
                self.height == old(self).height,
                self.cursor == old(self).cursor,
                self.painted_cursor == old(self).painted_cursor,
                init == flush_init(*old(self)),
                0 <= y <= self.height,
                ({
                    let st = flush_range(w, init, 0, y * w as int);
                    &&& commands@ == st.cmds
                    &&& self.cells@ == st.cells
                    &&& self.painted() == st.painted
                    &&& last_x as int == st.last_x
                    &&& last_y as int == st.last_y
                    &&& last_attr == st.last_attr
                }),
            decreases self.height - y,
        {
            let mut wide = false;
            let mut x: usize = 0;
            proof {
                assert(y * w as int + 0 == y * w as int);
            }
            while x < self.width
                invariant
                    old(self).wf(),
                    self.wf(),
                    w == self.width as nat,
                    n == self.width * self.height,
                    self.width == old(self).width,
                    self.height == old(self).height,
                    self.cursor == old(self).cursor,
                    self.painted_cursor == old(self).painted_cursor,
                    init == flush_init(*old(self)),
                    0 <= y < self.height,
                    0 <= x <= self.width,
                    ({
                        let st = flush_range(w, init, 0, y * w as int + x);
                        &&& commands@ == st.cmds
                        &&& self.cells@ == st.cells
                        &&& self.painted() == st.painted
                        &&& last_x as int == st.last_x
                        &&& last_y as int == st.last_y
                        &&& last_attr == st.last_attr
                        &&& (x == 0 ==> !wide)
                        &&& (x > 0 ==> wide == st.wide)
                    }),
                decreases self.width - x,
            {
                let ghost i = y * w as int + x;
                let ghost st = flush_range(w, init, 0, i);
                let ghost stn = if x == 0 {
                    FlushSt { wide: false, ..st }
                } else {
                    st
                };
                proof {
                    lemma_grid_index_decomp(w, x as nat, y as nat);
                    lemma_grid_index_bounds(w, self.height as nat, x as nat, y as nat);
                    lemma_flush_range_snoc(w, init, 0, i);
                    assert(flush_cell(w, st, i) == flush_cell(w, stn, i));
                    assert(stn.wide == wide);
                }
                let index = x + y * self.width;
                if wide {
                    wide = false;
                    let leftcell = self.cells[index - 1];
                    self.painted_cells.set(index, Cell { ch: ' ', attribute: leftcell.attribute });
                    proof {
                        assert(flush_cell(w, stn, i) == FlushSt {
                            painted: stn.painted.update(
                                i,
                                Cell { ch: ' ', attribute: stn.cells[i - 1].attribute },
                            ),
                            wide: false,
                            ..stn
                        });
                    }
                } else if self.painted_cells[index] == self.cells[index] {
                    proof {
                        assert(flush_cell(w, stn, i) == stn);
                    }
                } else {
                    let cell0 = self.cells[index];
                    if !(cell0.attribute == last_attr) {
                        commands.push(Command::ResetAttr);
                        commands.push(Command::Fg(cell0.attribute.fg));
                        commands.push(Command::Bg(cell0.attribute.bg));
                        commands.push(Command::Effect(cell0.attribute.effect));
                        last_attr = cell0.attribute;
                        proof {
                            assert(commands@ =~= stn.cmds + sgr_cmds(cell0.attribute));
                        }
                    }
                    let moved = last_x != x || last_y != y;
                    if moved {
                        commands.push(Command::MoveCursor { x, y });
                    }
                    let cw0 = display_width_of_char(cell0.ch);
                    let clip = cw0 == 2 && x == self.width - 1;
                    let ch = if clip {
                        ' '
                    } else {
                        cell0.ch
                    };
                    let newcell = Cell { ch, attribute: cell0.attribute };
                    if clip {
                        self.cells.set(index, newcell);
                    }
                    commands.push(Command::PutChar(ch));
                    let cw = display_width_of_char(ch);
                    last_x = x + 1;
                    if cw == 2 {
                        proof {
                            // a clipped cell is a space, whose width is one,
                            // so the cursor only skips a column mid-row
                            assert(!clip);
                            assert(x < self.width - 1);
                        }
                        last_x = last_x + 1;
                        wide = true;
                    }
                    last_y = y;
                    self.painted_cells.set(index, newcell);
                    proof {
                        let stp = flush_cell(w, stn, i);
                        assert(commands@ =~= stp.cmds);
                        assert(self.cells@ =~= stp.cells);
                        assert(self.painted() =~= stp.painted);
                        assert(last_x as int == stp.last_x);
                        assert(last_y as int == stp.last_y);
                        assert(last_attr == stp.last_attr);
                        assert(wide == stp.wide);
                    }
                }
                x = x + 1;
                proof {
                    assert(y * w as int + x == i + 1);
                }
            }
            y = y + 1;
            proof {
                assert(y * w as int == (y - 1) * w as int + w) by (nonlinear_arith);
            }
        }
        proof {
            assert(y * w as int == n) by (nonlinear_arith)
                requires
                    y == self.height,
                    n == self.width * self.height,
                    w == self.width as nat,
            ;
            lemma_flush_range_len(w, init, 0, n);
        }
        if self.cursor.visible && !self.painted_cursor.visible {
            commands.push(Command::ShowCursor);
        } else if !self.cursor.visible && self.painted_cursor.visible {
            commands.push(Command::HideCursor);
        }
        commands.push(Command::MoveCursor { x: self.cursor.x, y: self.cursor.y });
        self.painted_cursor = self.cursor;
        proof {
            assert(commands@ =~= flush_result(*old(self)).cmds + cursor_cmds(
                old(self).cursor,
                old(self).painted_cur(),
            ));
        }
        commands
    }
}

/// True when the walk, arriving at index `i`, finds a cell it must
/// draw: the position is not suppressed as the right half of a wide
/// character, and the shadow disagrees with the grid.
pub open spec fn step_emits(w: nat, st: FlushSt, i: int) -> bool {
    let wide = if i % (w as int) == 0 {
        false
    } else {
        st.wide
    };
    !wide && st.painted[i] != st.cells[i]
}

/// A walk over cells it finds already painted changes nothing: it
/// emits no command and leaves grid, shadow, attribute and cursor
/// state untouched.
proof fn lemma_flush_range_skip_all(w: nat, st: FlushSt, i: int, j: int)
    requires
        0 <= i,
        j <= st.cells.len(),
        st.painted == st.cells,
        !st.wide,
    ensures
        flush_range(w, st, i, j) == st,
    decreases j - i,
{
    if i < j {
        let st1 = flush_cell(w, st, i);
        assert(st1 =~= st);
        lemma_flush_range_skip_all(w, st, i + 1, j);
        assert(flush_range(w, st, i, j) == flush_range(w, st1, i + 1, j));
    }
}

/// Law: flushing a screen whose shadow already equals its grid emits
/// nothing beyond the initial attribute reset; in particular no
/// PutChar. The full command list of such a flush is the reset
/// followed by the trailing cursor block alone.
pub proof fn lemma_flush_synced_screen(s: Screen)
    requires
        s.wf(),
        s.painted() == s.cells@,
    ensures
        flush_result(s) == flush_init(s),
        flush_result(s).cmds == seq![Command::ResetAttr],
{
    lemma_flush_range_skip_all(s.width as nat, flush_init(s), 0, s.cells@.len() as int);
}

/// A walk over cells without wide characters leaves the grid as it
/// is and makes the shadow agree with it on the walked range.
proof fn lemma_flush_range_sync(w: nat, st: FlushSt, i: int, j: int)
    requires
        0 <= i,
        j <= st.cells.len(),
        st.painted.len() == st.cells.len(),
        !st.wide,
        forall|k: int| i <= k < j ==> char_width(#[trigger] st.cells[k].ch) != 2,
    ensures
        ({
            let st1 = flush_range(w, st, i, j);
            &&& st1.cells == st.cells
            &&& st1.painted.len() == st.painted.len()
            &&& !st1.wide
            &&& forall|k: int| i <= k < j ==> st1.painted[k] == st.cells[k]
            &&& forall|k: int|
                0 <= k < st.painted.len() && !(i <= k < j) ==> st1.painted[k] == st.painted[k]
        }),
    decreases j - i,
{
    if i < j {
        let st1 = flush_cell(w, st, i);
        assert(st1.cells == st.cells);
        assert(!st1.wide);
        assert(st1.painted.len() == st.painted.len());
        assert(st1.painted[i] == st.cells[i]) by {
            if st.painted[i] != st.cells[i] {
                let cell0 = st.cells[i];
                assert(char_width(cell0.ch) != 2);
                assert(st1.painted[i] == Cell { ch: cell0.ch, attribute: cell0.attribute });
                assert(Cell { ch: cell0.ch, attribute: cell0.attribute } == cell0);
            }
        }
        assert(forall|k: int| 0 <= k < st.painted.len() && k != i ==> st1.painted[k] == st.painted[k]);
        lemma_flush_range_sync(w, st1, i + 1, j);
        assert(flush_range(w, st, i, j) == flush_range(w, st1, i + 1, j));
    }
}

/// Law: a flush of a screen that holds no wide characters leaves the
/// shadow equal to the grid and the grid unchanged. With
/// `lemma_flush_synced_screen` this says an immediate second flush
/// emits no PutChar: only the attribute reset and the cursor block.
pub proof fn lemma_flush_makes_synced(s: Screen)
    requires
        s.wf(),
    ensures
        (forall|k: int| 0 <= k < s.cells@.len() ==> char_width(#[trigger] s.cells@[k].ch) != 2)
            ==> ({
            let st = flush_result(s);
            &&& st.cells == s.cells@
            &&& st.painted == st.cells
        }),
{
    if forall|k: int| 0 <= k < s.cells@.len() ==> char_width(#[trigger] s.cells@[k].ch) != 2 {
        let init = flush_init(s);
        let n = s.cells@.len() as int;
        lemma_flush_range_sync(s.width as nat, init, 0, n);
        let st = flush_result(s);
        assert(st.painted =~= st.cells);
    }
}

/// Law: flushing twice in a row draws nothing the second time: after
/// a flush of a screen without wide characters the shadow equals the
/// grid, so the next flush's walk emits only its leading attribute
/// reset, and its full command list is that reset followed by the
/// trailing cursor block alone — no PutChar.
pub proof fn lemma_second_flush_emits_nothing(s1: Screen, s2: Screen)
    requires
        s1.wf(),
        s2.wf(),
        s2.cells@ == flush_result(s1).cells,
        s2.painted() == flush_result(s1).painted,
    ensures
        (forall|k: int| 0 <= k < s1.cells@.len() ==> char_width(#[trigger] s1.cells@[k].ch) != 2)
            ==> flush_result(s2).cmds == seq![Command::ResetAttr],
{
    if forall|k: int| 0 <= k < s1.cells@.len() ==> char_width(#[trigger] s1.cells@[k].ch) != 2 {
        lemma_flush_makes_synced(s1);
        lemma_flush_synced_screen(s2);
    }
}

/// Law: a wide character that the walk must draw in the last column is
/// clipped: the emitted PutChar is a space, and both the grid and the
/// shadow keep a space with the cell's attribute there.
pub proof fn lemma_flush_wide_edge_clip(w: nat, st: FlushSt, i: int)
    ensures
        step_emits(w, st, i) && 0 <= i < st.cells.len() && st.painted.len() == st.cells.len()
            && char_width(st.cells[i].ch) == 2 && i % (w as int) == (w as int) - 1 ==> ({
            let st1 = flush_cell(w, st, i);
            &&& st1.cmds.last() == Command::PutChar(' ')
            &&& st1.cells[i] == Cell { ch: ' ', attribute: st.cells[i].attribute }
            &&& st1.painted[i] == Cell { ch: ' ', attribute: st.cells[i].attribute }
        }),
{
    if step_emits(w, st, i) && 0 <= i < st.cells.len() && st.painted.len() == st.cells.len()
        && char_width(st.cells[i].ch) == 2 && i % (w as int) == (w as int) - 1 {
        let st1 = flush_cell(w, st, i);
        assert(st1.cmds.len() > 0 && st1.cmds[st1.cmds.len() - 1] == Command::PutChar(' '));
    }
}

/// Law: when the walk draws a wide character before the last column,
/// the next position is suppressed: it emits nothing and its shadow is
/// marked covered, a space bearing the wide cell's attribute, while
/// the grid itself is untouched. A later write to that position will
/// therefore disagree with the shadow and be drawn.
pub proof fn lemma_flush_wide_covers_right(w: nat, st: FlushSt, i: int)
    ensures
        step_emits(w, st, i) && 0 <= i && i + 1 < st.cells.len() && i + 1
            < st.painted.len() && char_width(st.cells[i].ch) == 2 && 0 <= i % (w as int) < (
        w as int) - 1 ==> ({
            let st1 = flush_cell(w, st, i);
            let st2 = flush_cell(w, st1, i + 1);
            &&& st1.wide
            &&& st2.cmds == st1.cmds
            &&& st2.cells == st1.cells
            &&& st2.painted == st1.painted.update(
                i + 1,
                Cell { ch: ' ', attribute: st.cells[i].attribute },
            )
            &&& st2.painted[i + 1] == Cell { ch: ' ', attribute: st.cells[i].attribute }
        }),
{
    if step_emits(w, st, i) && 0 <= i && i + 1 < st.cells.len() && i + 1
        < st.painted.len() && char_width(st.cells[i].ch) == 2 && 0 <= i % (w as int) < (w as int)
        - 1 {
        let st1 = flush_cell(w, st, i);
        assert((i + 1) % (w as int) == i % (w as int) + 1 && (i + 1) % (w as int) != 0)
            by (nonlinear_arith)
            requires
                0 <= i % (w as int) < (w as int) - 1,
                w >= 1,
        ;
        assert(st1.cells[i] == st.cells[i]);
        assert(st1.painted.len() == st.painted.len());
        let st2 = flush_cell(w, st1, i + 1);
        assert(st2.painted[i + 1] == Cell { ch: ' ', attribute: st1.cells[i].attribute });
    }
}

/// Law: a cell whose shadow disagrees is drawn: the step appends
/// commands ending in its PutChar, and afterwards the shadow agrees
/// with the (possibly clipped) grid cell.
pub proof fn lemma_flush_step_emits(w: nat, st: FlushSt, i: int)
    ensures
        step_emits(w, st, i) && 0 <= i < st.cells.len() && st.painted.len() == st.cells.len()
            ==> ({
            let st1 = flush_cell(w, st, i);
            &&& st1.cmds.len() > st.cmds.len()
            &&& st1.cmds.last() == Command::PutChar(st1.cells[i].ch)
            &&& st1.painted[i] == st1.cells[i]
        }),
{
    if step_emits(w, st, i) && 0 <= i < st.cells.len() && st.painted.len() == st.cells.len() {
        let st1 = flush_cell(w, st, i);
        let x = i % (w as int);
        let clip = char_width(st.cells[i].ch) == 2 && x == (w as int) - 1;
        let ch = if clip {
            ' '
        } else {
            st.cells[i].ch
        };
        assert(st1.cmds.len() > st.cmds.len());
        assert(st1.cmds[st1.cmds.len() - 1] == Command::PutChar(ch));
        assert(st1.cells[i] == Cell { ch, attribute: st.cells[i].attribute });
        assert(st1.painted[i] == Cell { ch, attribute: st.cells[i].attribute });
    }
}

/// Law: the walk's running attribute is the attribute of the most
/// recently drawn cell (the default after the initial reset): a
/// drawing step sets it to its cell's attribute, and every other step
/// keeps it, emitting nothing.
pub proof fn lemma_flush_last_attr(w: nat, st: FlushSt, i: int)
    ensures
        step_emits(w, st, i) && 0 <= i < st.cells.len() ==> flush_cell(w, st, i).last_attr
            == st.cells[i].attribute,
        !step_emits(w, st, i) ==> flush_cell(w, st, i).last_attr == st.last_attr && flush_cell(
            w,
            st,
            i,
        ).cmds == st.cmds,
{
}

/// Law: between two consecutively drawn cells whose attributes are
/// equal, no SGR command is emitted: the step that draws the second
/// appends at most a cursor move before its PutChar. Together with
/// `lemma_flush_last_attr` (the running attribute is the previously
/// drawn cell's) this covers any two PutChars with no PutChar between
/// them.
pub proof fn lemma_no_sgr_between_equal_attrs(w: nat, st: FlushSt, i: int)
    ensures
        step_emits(w, st, i) && 0 <= i < st.cells.len() && st.cells[i].attribute == st.last_attr
            ==> ({
            let st1 = flush_cell(w, st, i);
            let added = st1.cmds.skip(st.cmds.len() as int);
            &&& 1 <= added.len() <= 2
            &&& forall|k: int| 0 <= k < added.len() ==> !is_sgr(#[trigger] added[k])
            &&& added.last() == Command::PutChar(st1.cells[i].ch)
        }),
{
    if step_emits(w, st, i) && 0 <= i < st.cells.len() && st.cells[i].attribute == st.last_attr {
        let st1 = flush_cell(w, st, i);
        let x = i % (w as int);
        let y = i / (w as int);
        let clip = char_width(st.cells[i].ch) == 2 && x == (w as int) - 1;
        let ch = if clip {
            ' '
        } else {
            st.cells[i].ch
        };
        if st.last_x != x || st.last_y != y {
            assert(st1.cmds == st.cmds + Seq::<Command>::empty() + seq![
                Command::MoveCursor { x: x as usize, y: y as usize },
            ] + seq![Command::PutChar(ch)]);
            assert(st1.cmds.skip(st.cmds.len() as int) =~= seq![
                Command::MoveCursor { x: x as usize, y: y as usize },
                Command::PutChar(ch),
            ]);
        } else {
            assert(st1.cmds == st.cmds + Seq::<Command>::empty() + Seq::<Command>::empty() + seq![
                Command::PutChar(ch),
            ]);
            assert(st1.cmds.skip(st.cmds.len() as int) =~= seq![Command::PutChar(ch)]);
        }
    }
}

/// Law: resizing preserves the top-left subrectangle common to the
/// old and new sizes and fills every other new position with the
/// default cell.
pub proof fn lemma_resize_subrectangle(
    old_cells: Seq<Cell>,
    old_w: nat,
    old_h: nat,
    w: nat,
    h: nat,
    x: nat,
    y: nat,
)
    requires
        old_cells.len() == old_w * old_h,
        x < w,
        y < h,
    ensures
        x < old_w && y < old_h ==> copy_cells_spec(old_cells, old_w, old_h, w, h)[grid_index(
            w,
            x,
            y,
        )] == old_cells[grid_index(old_w, x, y)],
        !(x < old_w && y < old_h) ==> copy_cells_spec(old_cells, old_w, old_h, w, h)[grid_index(
            w,
            x,
            y,
        )] == Cell::spec_default(),
{
    lemma_grid_index_bounds(w, h, x, y);
    lemma_grid_index_decomp(w, x, y);
}

/// Builds the resized grid, copying the shared top-left subrectangle.
fn copy_cells(
    original: &Vec<Cell>,
    old_w: usize,
    old_h: usize,
    w: usize,
    h: usize,
    Ghost(orig_view): Ghost<Seq<Cell>>,
) -> (r: Vec<Cell>)
    requires
        orig_view == original@,
        original@.len() == old_w * old_h,
        old_w * old_h <= usize::MAX,
        w * h <= usize::MAX,
    ensures
        r@ == copy_cells_spec(orig_view, old_w as nat, old_h as nat, w as nat, h as nat),
{
    let ghost target = copy_cells_spec(orig_view, old_w as nat, old_h as nat, w as nat, h as nat);
    let n = w * h;
    let mut r: Vec<Cell> = Vec::new();
    let mut i: usize = 0;
    while i < n
        invariant
            n == w * h,
            w * h <= usize::MAX,
            old_w * old_h <= usize::MAX,
            original@.len() == old_w * old_h,
            orig_view == original@,
            0 <= i <= n,
            r@.len() == i,
            target == copy_cells_spec(orig_view, old_w as nat, old_h as nat, w as nat, h as nat),
            forall|j: int| 0 <= j < i ==> r@[j] == target[j],
        decreases n - i,
    {
        proof {
            assert(w > 0) by (nonlinear_arith)
                requires
                    n == w * h,
                    0 <= i < n,
            ;
        }
        let x = i % w;
        let y = i / w;
        proof {
            assert(x == i as int % (w as int) && y == i as int / (w as int));
        }
        let c = if x < old_w && y < old_h {
            proof {
                lemma_grid_index_bounds(old_w as nat, old_h as nat, x as nat, y as nat);
            }
            original[x + y * old_w]
        } else {
            Cell::default()
        };
        r.push(c);
        i = i + 1;
    }
    proof {
        assert(r@ =~= target);
    }
    r
}

} // verus!
