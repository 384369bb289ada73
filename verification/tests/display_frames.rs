use drawbridge::cmd::{CellUpdate, Cmd, Point, RgbColor};
use drawbridge::display::{DisplayServer, TermOp};
use drawbridge::session::{react, Reaction};

fn draw(x: u16, y: u16, glyph: char, fg: Option<RgbColor>, bg: Option<RgbColor>) -> Cmd {
    Cmd::Draw(CellUpdate { pos: Point { x, y }, glyph, fg_color: fg, bg_color: bg })
}

const RED: RgbColor = RgbColor { r: 255, g: 0, b: 0 };

#[test]
fn first_frame_writes_every_cell() {
    let mut s = DisplayServer::new(2, 1);
    let ops = s.execute(Cmd::Flush);
    assert_eq!(
        ops,
        vec![
            TermOp::MoveTo(0, 0),
            TermOp::SetForeground(None),
            TermOp::SetBackground(None),
            TermOp::Print(' '),
            TermOp::SetForeground(None),
            TermOp::SetBackground(None),
            TermOp::Print(' '),
        ]
    );
}

#[test]
fn unchanged_frame_sends_nothing() {
    let mut s = DisplayServer::new(3, 2);
    s.execute(Cmd::Flush);
    assert_eq!(s.execute(Cmd::Flush), vec![]);
}

#[test]
fn only_changed_cells_are_written() {
    let mut s = DisplayServer::new(3, 2);
    s.execute(Cmd::Flush);
    assert_eq!(s.execute(draw(1, 1, 'x', Some(RED), None)), vec![]);
    assert_eq!(s.execute(draw(2, 1, 'y', Some(RED), None)), vec![]);
    let ops = s.execute(Cmd::Flush);
    assert_eq!(
        ops,
        vec![
            TermOp::MoveTo(1, 1),
            TermOp::SetForeground(Some(RED)),
            TermOp::SetBackground(None),
            TermOp::Print('x'),
            TermOp::SetBackground(None),
            TermOp::Print('y'),
        ]
    );
}

#[test]
fn a_gap_moves_the_cursor() {
    let mut s = DisplayServer::new(4, 1);
    s.execute(Cmd::Flush);
    s.execute(draw(0, 0, 'a', Some(RED), Some(RED)));
    s.execute(draw(2, 0, 'b', Some(RED), Some(RED)));
    let ops = s.execute(Cmd::Flush);
    assert_eq!(
        ops,
        vec![
            TermOp::MoveTo(0, 0),
            TermOp::SetForeground(Some(RED)),
            TermOp::SetBackground(Some(RED)),
            TermOp::Print('a'),
            TermOp::MoveTo(2, 0),
            TermOp::Print('b'),
        ]
    );
}

#[test]
fn draws_off_the_canvas_are_ignored() {
    let mut s = DisplayServer::new(2, 2);
    s.execute(Cmd::Flush);
    s.execute(draw(2, 0, 'x', None, None));
    s.execute(draw(0, 2, 'x', None, None));
    assert_eq!(s.execute(Cmd::Flush), vec![]);
}

#[test]
fn clear_blanks_the_next_frame() {
    let mut s = DisplayServer::new(2, 1);
    s.execute(draw(0, 0, 'a', None, None));
    s.execute(Cmd::Flush);
    s.execute(Cmd::Clear);
    let ops = s.execute(Cmd::Flush);
    assert_eq!(
        ops,
        vec![
            TermOp::MoveTo(0, 0),
            TermOp::SetForeground(None),
            TermOp::SetBackground(None),
            TermOp::Print(' '),
        ]
    );
}

#[test]
fn query_size_changes_nothing() {
    let mut s = DisplayServer::new(5, 4);
    assert_eq!(s.execute(Cmd::QuerySize), vec![]);
    assert_eq!(s.get_size(), (5, 4));
}

#[test]
fn resize_reports_new_size_and_keeps_overlap() {
    let mut s = DisplayServer::new(3, 2);
    s.execute(draw(0, 0, 'a', None, None));
    s.execute(draw(2, 1, 'z', None, None));
    s.execute(Cmd::Flush);
    s.resize(2, 3);
    assert_eq!(s.get_size(), (2, 3));
    let ops = s.execute(Cmd::Flush);
    let printed: Vec<char> = ops
        .iter()
        .filter_map(|op| if let TermOp::Print(c) = op { Some(*c) } else { None })
        .collect();
    assert_eq!(printed, vec!['a', ' ', ' ', ' ', ' ', ' ']);
}

#[test]
fn resize_round_trip_keeps_contents() {
    let mut s = DisplayServer::new(2, 2);
    s.execute(draw(1, 1, 'q', None, None));
    s.execute(Cmd::Flush);
    s.resize(4, 3);
    s.resize(2, 2);
    let ops = s.execute(Cmd::Flush);
    let printed: Vec<char> = ops
        .iter()
        .filter_map(|op| if let TermOp::Print(c) = op { Some(*c) } else { None })
        .collect();
    assert_eq!(printed, vec![' ', ' ', ' ', 'q']);
}

#[test]
fn empty_canvas() {
    let mut s = DisplayServer::new(0, 5);
    assert_eq!(s.execute(Cmd::Flush), vec![]);
    assert_eq!(s.get_size(), (0, 5));
}

/// A terminal that carries out the operations, as a check of what a frame
/// makes it show.
struct FakeTerminal {
    width: usize,
    height: usize,
    cells: Vec<(char, Option<RgbColor>, Option<RgbColor>)>,
    cursor: (usize, usize),
    fg: Option<RgbColor>,
    bg: Option<RgbColor>,
}

impl FakeTerminal {
    fn new(width: usize, height: usize, fill: char) -> Self {
        FakeTerminal {
            width,
            height,
            cells: vec![(fill, None, None); width * height],
            cursor: (0, 0),
            fg: Some(RgbColor { r: 9, g: 9, b: 9 }),
            bg: Some(RgbColor { r: 9, g: 9, b: 9 }),
        }
    }

    fn apply(&mut self, ops: &[TermOp]) {
        for op in ops {
            match *op {
                TermOp::MoveTo(x, y) => self.cursor = (x as usize, y as usize),
                TermOp::SetForeground(c) => self.fg = c,
                TermOp::SetBackground(c) => self.bg = c,
                TermOp::Print(g) => {
                    let (x, y) = self.cursor;
                    if x < self.width && y < self.height {
                        self.cells[y * self.width + x] = (g, self.fg, self.bg);
                    }
                    self.cursor = (x + 1, y);
                }
            }
        }
    }

    fn at(&self, x: usize, y: usize) -> (char, Option<RgbColor>, Option<RgbColor>) {
        self.cells[y * self.width + x]
    }
}

#[test]
fn frames_make_the_terminal_show_the_canvas() {
    let blue = RgbColor { r: 0, g: 0, b: 200 };
    let mut s = DisplayServer::new(4, 3);
    let mut term = FakeTerminal::new(4, 3, '#');
    let script = vec![
        draw(0, 0, 'a', Some(RED), None),
        draw(3, 2, 'b', None, Some(blue)),
        Cmd::Flush,
        draw(1, 0, 'c', Some(RED), Some(blue)),
        draw(2, 0, 'd', Some(RED), Some(blue)),
        draw(0, 1, 'e', None, None),
        Cmd::Flush,
        Cmd::Clear,
        draw(2, 2, 'f', Some(blue), Some(RED)),
        Cmd::Flush,
    ];
    let mut expected = vec![(' ', None, None); 12];
    for cmd in script {
        if let Cmd::Draw(u) = cmd {
            expected[u.pos.y as usize * 4 + u.pos.x as usize] = (u.glyph, u.fg_color, u.bg_color);
        }
        if cmd == Cmd::Clear {
            expected = vec![(' ', None, None); 12];
        }
        let is_flush = cmd == Cmd::Flush;
        let ops = s.execute(cmd);
        term.apply(&ops);
        if is_flush {
            assert_eq!(term.cells, expected);
        }
    }
    assert_eq!(term.at(2, 2), ('f', Some(blue), Some(RED)));
    assert_eq!(term.at(0, 0), (' ', None, None));
}

#[test]
fn reactions() {
    let mut s = DisplayServer::new(3, 2);
    assert!(matches!(react(&mut s, Cmd::QuerySize), Reaction::Reply(r) if r == "Size|3|2\n"));
    assert!(matches!(react(&mut s, draw(0, 0, 'a', None, None)), Reaction::Buffered));
    assert!(matches!(react(&mut s, Cmd::Clear), Reaction::Buffered));
    match react(&mut s, Cmd::Flush) {
        Reaction::Frame(ops) => assert_eq!(ops.iter().filter(|o| matches!(o, TermOp::Print(_))).count(), 6),
        other => panic!("{:?}", other),
    }
    assert!(matches!(react(&mut s, Cmd::Flush), Reaction::Frame(ops) if ops.is_empty()));
}

#[test]
fn large_terminal() {
    let mut s = DisplayServer::new(300, 300);
    assert_eq!(s.get_size(), (300, 300));
    s.execute(draw(299, 299, 'z', None, None));
    let ops = s.execute(Cmd::Flush);
    assert_eq!(ops.iter().filter(|o| matches!(o, TermOp::Print(_))).count(), 90000);
    assert!(ops.ends_with(&[TermOp::Print('z')]));
}
