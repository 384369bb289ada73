use vstd::prelude::*;
use crate::args::{parse_args, ArgValue, ArgsContext, Fault, SpecArg, SpecFault, param_count};
use crate::cmd::{CellUpdate, Cmd, Point, RgbColor};
use crate::text::{char_at, chars_eq};
use crate::text::is_white_space;
use crate::token::{lex, skip_ws, ParseError, Signature, SpecParseError, SpecToken, Token, Tokenizer};

verus! {

// ---------------------------------------------------------------------------
// What a command line means
// ---------------------------------------------------------------------------

/// The colour that a bracketed value of exactly three numbers gives; each
/// number is cut to its low eight bits.
pub open spec fn color_from_tokens(ts: Seq<SpecToken>) -> Option<RgbColor> {
    if ts.len() == 3 {
        match (ts[0], ts[1], ts[2]) {
            (SpecToken::Number(r), SpecToken::Number(g), SpecToken::Number(b)) => Some(
                RgbColor { r: r as u8, g: g as u8, b: b as u8 },
            ),
            _ => None,
        }
    } else {
        None
    }
}

/// The colour that an optional colour argument gives: the argument, where
/// given, must be a bracketed value of three numbers (else `err`); where it
/// is not given, the colour is the default.
pub open spec fn color_arg(arg: Option<SpecArg>, err: SpecParseError) -> Result<
    Option<RgbColor>,
    SpecParseError,
> {
    match arg {
        Some(SpecArg::Tuple(ts)) => match color_from_tokens(ts) {
            Some(c) => Ok(Some(c)),
            None => Err(err),
        },
        Some(SpecArg::Single(_)) => Err(err),
        None => Ok(None),
    }
}

/// The foreground and background colours of a `Draw`.
pub open spec fn draw_colors(fg: Option<SpecArg>, bg: Option<SpecArg>) -> Result<
    (Option<RgbColor>, Option<RgbColor>),
    SpecParseError,
> {
    match color_arg(fg, SpecParseError::InvalidFgColor) {
        Err(e) => Err(e),
        Ok(f) => match color_arg(bg, SpecParseError::InvalidBgColor) {
            Err(e) => Err(e),
            Ok(b) => Ok((f, b)),
        },
    }
}

/// The column of the `i`-th character of a string drawn from column `x`:
/// columns count on modulo 2^16.
pub open spec fn column(x: u16, i: int) -> u16 {
    ((x + i) % 0x10000) as u16
}

/// The `Draw` of the `i`-th character of `text`, drawn from column `x` of row `y`.
pub open spec fn text_cell(
    x: u16,
    y: u16,
    text: Seq<char>,
    fg: Option<RgbColor>,
    bg: Option<RgbColor>,
    i: int,
) -> Cmd {
    Cmd::Draw(
        CellUpdate { pos: Point { x: column(x, i), y }, glyph: text[i], fg_color: fg, bg_color: bg },
    )
}

/// The commands of a `Draw` whose parameters are bound to `slots`
/// (`x`, `y`, `glyph`, `fg_color`, `bg_color`): one cell for a character,
/// one cell per character for a string, placed left to right from `x`.
pub open spec fn draw_cmds(slots: Seq<Option<SpecArg>>) -> Result<Seq<Cmd>, SpecParseError> {
    match slots[0] {
        Some(SpecArg::Single(SpecToken::Number(x))) => match slots[1] {
            Some(SpecArg::Single(SpecToken::Number(y))) => match slots[2] {
                None => Err(SpecParseError::MissingGlyph),
                Some(SpecArg::Single(SpecToken::Char(c))) => match draw_colors(slots[3], slots[4]) {
                    Err(e) => Err(e),
                    Ok((fg, bg)) => Ok(
                        seq![
                            Cmd::Draw(
                                CellUpdate {
                                    pos: Point { x, y },
                                    glyph: c,
                                    fg_color: fg,
                                    bg_color: bg,
                                },
                            ),
                        ],
                    ),
                },
                Some(SpecArg::Single(SpecToken::Str(text))) => match draw_colors(slots[3], slots[4]) {
                    Err(e) => Err(e),
                    Ok((fg, bg)) => Ok(
                        Seq::new(text.len(), |i: int| text_cell(x, y, text, fg, bg, i)),
                    ),
                },
                Some(_) => Err(SpecParseError::InvalidGlyph),
            },
            _ => Err(SpecParseError::InvalidY),
        },
        _ => Err(SpecParseError::InvalidX),
    }
}

/// A command without parameters: its argument list, then the command.
pub open spec fn bare_cmd(s: Seq<char>, k: int, cmd: Cmd) -> Result<Seq<Cmd>, SpecFault> {
    match parse_args(s, k, Signature::Bare) {
        Err(f) => Err(f),
        Ok(_) => Ok(seq![cmd]),
    }
}

/// What a command line `s` gives: the commands it holds, or why it is refused.
/// A blank line, or one whose first token is not a word, holds no command;
/// what follows the closing `)` of a command is not read.
pub open spec fn parse_line_spec(s: Seq<char>) -> Result<Seq<Cmd>, SpecFault> {
    match lex(s, 0) {
        None => Ok(seq![]),
        Some(Err(e)) => Err(SpecFault::Syntax(e)),
        Some(Ok((SpecToken::Word(name), k))) => if name == seq!['D', 'r', 'a', 'w'] {
            match parse_args(s, k, Signature::Draw) {
                Err(f) => Err(f),
                Ok(slots) => match draw_cmds(slots) {
                    Ok(cmds) => Ok(cmds),
                    Err(e) => Err(SpecFault::Syntax(e)),
                },
            }
        } else if name == seq!['C', 'l', 'e', 'a', 'r'] {
            bare_cmd(s, k, Cmd::Clear)
        } else if name == seq!['F', 'l', 'u', 's', 'h'] {
            bare_cmd(s, k, Cmd::Flush)
        } else if name == seq!['Q', 'u', 'e', 'r', 'y', 'S', 'i', 'z', 'e'] {
            bare_cmd(s, k, Cmd::QuerySize)
        } else {
            Err(SpecFault::Syntax(SpecParseError::UnknownCommand(name)))
        },
        Some(Ok(_)) => Ok(seq![]),
    }
}

/// Whether reading `s` would index past a command's parameter list (a
/// bracketed positional value after the last parameter).
pub open spec fn overflows_params(s: Seq<char>) -> bool {
    parse_line_spec(s) matches Err(SpecFault::SlotOverflow)
}

// ---------------------------------------------------------------------------
// Reading commands
// ---------------------------------------------------------------------------

impl RgbColor {
    /// The colour that a bracketed value of exactly three numbers gives.
    pub fn from_tokens(tokens: &Vec<Token>) -> (r: Option<Self>)
        ensures
            r == color_from_tokens(crate::args::tokens_view(tokens@)),
    {
        if tokens.len() != 3 {
            return None;
        }
        match (&tokens[0], &tokens[1], &tokens[2]) {
            (Token::Number(r), Token::Number(g), Token::Number(b)) => Some(
                RgbColor {
                    r: #[verifier::truncate] (*r as u8),
                    g: #[verifier::truncate] (*g as u8),
                    b: #[verifier::truncate] (*b as u8),
                },
            ),
            _ => None,
        }
    }
}

/// One `Draw` per character of `text`, placed left to right from `x`.
fn draw_text(
    x: u16,
    y: u16,
    text: &Vec<char>,
    fg: Option<RgbColor>,
    bg: Option<RgbColor>,
) -> (r: Vec<Cmd>)
    ensures
        r@ == Seq::new(text@.len(), |j: int| text_cell(x, y, text@, fg, bg, j)),
{
    let mut cmds: Vec<Cmd> = Vec::new();
    let mut i: usize = 0;
    let mut cx: u16 = x;
    while i < text.len()
        invariant
            i <= text@.len(),
            cx == column(x, i as int),
            cmds@.len() == i,
            forall|j: int|
                0 <= j < i ==> #[trigger] cmds@[j] == text_cell(x, y, text@, fg, bg, j),
        decreases text@.len() - i,
    {
        let g = char_at(text, i);
        cmds.push(
            Cmd::Draw(
                CellUpdate { pos: Point { x: cx, y }, glyph: g, fg_color: fg, bg_color: bg },
            ),
        );
        cx = if cx == 0xffff {
            0
        } else {
            cx + 1
        };
        i = i + 1;
    }
    assert(cmds@ =~= Seq::new(text@.len(), |j: int| text_cell(x, y, text@, fg, bg, j)));
    cmds
}

/// Reads command lines.
pub struct Parser {}

impl Parser {
    /// A parser. It keeps no state: each line is read on its own.
    pub fn new() -> Self {
        Parser {  }
    }

    fn draw_colors_exec(ctx: &ArgsContext) -> (r: Result<
        (Option<RgbColor>, Option<RgbColor>),
        ParseError,
    >)
        requires
            ctx.len() == param_count(Signature::Draw),
        ensures
            match draw_colors(ctx.slots()[3], ctx.slots()[4]) {
                Ok(c) => r == Ok::<(Option<RgbColor>, Option<RgbColor>), ParseError>(c),
                Err(e) => r matches Err(e2) && e2@ == e,
            },
    {
        let fg = match Self::color_arg_exec(ctx.get(3), ParseError::InvalidFgColor) {
            Ok(c) => c,
            Err(e) => {
                return Err(e);
            },
        };
        let bg = match Self::color_arg_exec(ctx.get(4), ParseError::InvalidBgColor) {
            Ok(c) => c,
            Err(e) => {
                return Err(e);
            },
        };
        Ok((fg, bg))
    }

    fn draw_from_args(ctx: &ArgsContext) -> (r: Result<Vec<Cmd>, ParseError>)
        requires
            ctx.len() == param_count(Signature::Draw),
        ensures
            match draw_cmds(ctx.slots()) {
                Ok(c) => r matches Ok(v) && v@ == c,
                Err(e) => r matches Err(e2) && e2@ == e,
            },
    {
        let x = match ctx.get(0) {
            Some(ArgValue::Single(Token::Number(n))) => *n,
            _ => {
                return Err(ParseError::InvalidX);
            },
        };
        let y = match ctx.get(1) {
            Some(ArgValue::Single(Token::Number(n))) => *n,
            _ => {
                return Err(ParseError::InvalidY);
            },
        };
        let mut cmds: Vec<Cmd> = Vec::new();
        match ctx.get(2) {
            None => Err(ParseError::MissingGlyph),
            Some(ArgValue::Single(Token::Char(c))) => {
                let (fg, bg) = match Self::draw_colors_exec(ctx) {
                    Ok(colors) => colors,
                    Err(e) => {
                        return Err(e);
                    },
                };
                cmds.push(
                    Cmd::Draw(CellUpdate { pos: Point { x, y }, glyph: *c, fg_color: fg, bg_color: bg }),
                );
                assert(cmds@ =~= seq![
                    Cmd::Draw(CellUpdate { pos: Point { x, y }, glyph: *c, fg_color: fg, bg_color: bg }),
                ]);
                Ok(cmds)
            },
            Some(ArgValue::Single(Token::StringLiteral(text))) => {
                let (fg, bg) = match Self::draw_colors_exec(ctx) {
                    Ok(colors) => colors,
                    Err(e) => {
                        return Err(e);
                    },
                };
                let cmds = draw_text(x, y, text, fg, bg);
                Ok(cmds)
            },
            Some(_) => Err(ParseError::InvalidGlyph),
        }
    }

    fn parse_draw(tokenizer: &mut Tokenizer) -> (r: Result<Vec<Cmd>, Fault>)
        requires
            old(tokenizer).wf(),
        ensures
            match parse_args(old(tokenizer).text(), old(tokenizer).position(), Signature::Draw) {
                Err(f) => r matches Err(f2) && f2@ == f,
                Ok(slots) => match draw_cmds(slots) {
                    Ok(c) => r matches Ok(v) && v@ == c,
                    Err(e) => r matches Err(f2) && f2@ == SpecFault::Syntax(e),
                },
            },
    {
        let ctx = match ArgsContext::parse(Signature::Draw, tokenizer) {
            Ok(ctx) => ctx,
            Err(f) => {
                return Err(f);
            },
        };
        match Self::draw_from_args(&ctx) {
            Ok(cmds) => Ok(cmds),
            Err(e) => Err(Fault::Syntax(e)),
        }
    }

    fn parse_bare(tokenizer: &mut Tokenizer, cmd: Cmd) -> (r: Result<Vec<Cmd>, Fault>)
        requires
            old(tokenizer).wf(),
        ensures
            match bare_cmd(old(tokenizer).text(), old(tokenizer).position(), cmd) {
                Err(f) => r matches Err(f2) && f2@ == f,
                Ok(c) => r matches Ok(v) && v@ == c,
            },
    {
        match ArgsContext::parse(Signature::Bare, tokenizer) {
            Ok(_) => {
                let mut cmds: Vec<Cmd> = Vec::new();
                cmds.push(cmd);
                assert(cmds@ =~= seq![cmd]);
                Ok(cmds)
            },
            Err(f) => Err(f),
        }
    }

    /// Reads one command line; where the line would index past a command's
    /// parameter list, says so with [`Fault::SlotOverflow`].
    pub fn try_parse_line(&mut self, line: &str) -> (r: Result<Vec<Cmd>, Fault>)
        ensures
            match parse_line_spec(line@) {
                Ok(c) => r matches Ok(v) && v@ == c,
                Err(f) => r matches Err(f2) && f2@ == f,
            },
    {
        let mut tokenizer = Tokenizer::new(line);
        let first = match tokenizer.next_token() {
            None => {
                return Ok(Vec::new());
            },
            Some(Err(e)) => {
                return Err(Fault::Syntax(e));
            },
            Some(Ok(t)) => t,
        };
        match first {
            Token::Word(name) => {
                let draw = ['D', 'r', 'a', 'w'];
                let clear = ['C', 'l', 'e', 'a', 'r'];
                let flush = ['F', 'l', 'u', 's', 'h'];
                let query = ['Q', 'u', 'e', 'r', 'y', 'S', 'i', 'z', 'e'];
                assert(draw@ =~= seq!['D', 'r', 'a', 'w']);
                assert(clear@ =~= seq!['C', 'l', 'e', 'a', 'r']);
                assert(flush@ =~= seq!['F', 'l', 'u', 's', 'h']);
                assert(query@ =~= seq!['Q', 'u', 'e', 'r', 'y', 'S', 'i', 'z', 'e']);
                if chars_eq(&name, &draw) {
                    Self::parse_draw(&mut tokenizer)
                } else if chars_eq(&name, &clear) {
                    Self::parse_bare(&mut tokenizer, Cmd::Clear)
                } else if chars_eq(&name, &flush) {
                    Self::parse_bare(&mut tokenizer, Cmd::Flush)
                } else if chars_eq(&name, &query) {
                    Self::parse_bare(&mut tokenizer, Cmd::QuerySize)
                } else {
                    Err(Fault::Syntax(ParseError::UnknownCommand(name)))
                }
            },
            _ => Ok(Vec::new()),
        }
    }

    /// Reads one command line: the commands it holds, or why it is refused.
    pub fn parse_line(&mut self, line: &str) -> (r: Result<Vec<Cmd>, ParseError>)
        requires
            !overflows_params(line@),
        ensures
            match parse_line_spec(line@) {
                Ok(c) => r matches Ok(v) && v@ == c,
                Err(SpecFault::Syntax(e)) => r matches Err(e2) && e2@ == e,
                Err(SpecFault::SlotOverflow) => false,
            },
    {
        match self.try_parse_line(line) {
            Ok(cmds) => Ok(cmds),
            Err(Fault::Syntax(e)) => Err(e),
            Err(Fault::SlotOverflow) => {
                assert(false);
                Err(ParseError::MissingCloseParen)
            },
        }
    }

    fn color_arg_exec(arg: &Option<ArgValue>, err: ParseError) -> (r: Result<
        Option<RgbColor>,
        ParseError,
    >)
        ensures
            match color_arg(
                match arg {
                    Some(a) => Some(a@),
                    None => None,
                },
                err@,
            ) {
                Ok(c) => r == Ok::<Option<RgbColor>, ParseError>(c),
                Err(e) => r matches Err(e2) && e2@ == e,
            },
    {
        match arg {
            Some(ArgValue::Tuple(tokens)) => match RgbColor::from_tokens(tokens) {
                Some(c) => Ok(Some(c)),
                None => Err(err),
            },
            Some(ArgValue::Single(_)) => Err(err),
            None => Ok(None),
        }
    }
}

// ---------------------------------------------------------------------------
// Laws of command lines
// ---------------------------------------------------------------------------

proof fn lemma_all_blank(s: Seq<char>, i: int)
    requires
        0 <= i <= s.len(),
        forall|k: int| 0 <= k < s.len() ==> is_white_space(#[trigger] s[k]),
    ensures
        skip_ws(s, i) == s.len(),
    decreases s.len() - i,
{
    if i < s.len() {
        lemma_all_blank(s, i + 1);
    }
}

/// A line of white space only (an empty line too) holds no command.
pub proof fn lemma_blank_line(s: Seq<char>)
    requires
        forall|k: int| 0 <= k < s.len() ==> is_white_space(#[trigger] s[k]),
    ensures
        parse_line_spec(s) == Ok::<Seq<Cmd>, SpecFault>(seq![]),
{
    lemma_all_blank(s, 0);
}

/// Colours that are not given are the terminal's defaults: a `Draw`
/// without `fg_color` and `bg_color` gives cells in the default colours.
pub proof fn lemma_default_colors(slots: Seq<Option<SpecArg>>, cmds: Seq<Cmd>)
    requires
        slots.len() == param_count(Signature::Draw),
        slots[3] is None,
        slots[4] is None,
        draw_cmds(slots) == Ok::<Seq<Cmd>, SpecParseError>(cmds),
    ensures
        forall|i: int|
            0 <= i < cmds.len() ==> (#[trigger] cmds[i] matches Cmd::Draw(u) && u.fg_color is None
                && u.bg_color is None),
{
}

/// A string is drawn one character per cell, left to right: the `i`-th
/// command draws the `i`-th character at the `i`-th column from `x`.
pub proof fn lemma_string_cells(
    slots: Seq<Option<SpecArg>>,
    x: u16,
    y: u16,
    text: Seq<char>,
    cmds: Seq<Cmd>,
)
    requires
        slots.len() == param_count(Signature::Draw),
        slots[0] == Some(SpecArg::Single(SpecToken::Number(x))),
        slots[1] == Some(SpecArg::Single(SpecToken::Number(y))),
        slots[2] == Some(SpecArg::Single(SpecToken::Str(text))),
        draw_cmds(slots) == Ok::<Seq<Cmd>, SpecParseError>(cmds),
    ensures
        cmds.len() == text.len(),
        forall|i: int|
            0 <= i < cmds.len() ==> (#[trigger] cmds[i] matches Cmd::Draw(u) && u.glyph == text[i]
                && u.pos.y == y && u.pos.x as int == (x + i) % 0x10000),
{
}

/// The argument `(r, g, b)` for a colour written as three numbers, or no
/// argument.
pub open spec fn written_color(c: Option<(u16, u16, u16)>) -> Option<SpecArg> {
    match c {
        Some((r, g, b)) => Some(
            SpecArg::Tuple(seq![SpecToken::Number(r), SpecToken::Number(g), SpecToken::Number(b)]),
        ),
        None => None,
    }
}

/// The colour that `(r, g, b)` stands for, each number cut to eight bits;
/// no argument stands for the default.
pub open spec fn intended_color(c: Option<(u16, u16, u16)>) -> Option<RgbColor> {
    match c {
        Some((r, g, b)) => Some(RgbColor { r: r as u8, g: g as u8, b: b as u8 }),
        None => None,
    }
}

/// `fg_color` colours the text and `bg_color` the background: every cell a
/// `Draw` gives, for a character or a string, has the text colour written
/// for `fg_color` and the background colour written for `bg_color` (the
/// default where one is not given).
pub proof fn lemma_draw_colors_given(
    slots: Seq<Option<SpecArg>>,
    fg: Option<(u16, u16, u16)>,
    bg: Option<(u16, u16, u16)>,
    cmds: Seq<Cmd>,
)
    requires
        slots.len() == param_count(Signature::Draw),
        slots[3] == written_color(fg),
        slots[4] == written_color(bg),
        draw_cmds(slots) == Ok::<Seq<Cmd>, SpecParseError>(cmds),
    ensures
        forall|i: int|
            0 <= i < cmds.len() ==> (#[trigger] cmds[i] matches Cmd::Draw(u) && u.fg_color
                == intended_color(fg) && u.bg_color == intended_color(bg)),
{
    if let Some((r, g, b)) = fg {
        let ts = seq![SpecToken::Number(r), SpecToken::Number(g), SpecToken::Number(b)];
        assert(ts.len() == 3 && ts[0] == SpecToken::Number(r) && ts[1] == SpecToken::Number(g)
            && ts[2] == SpecToken::Number(b));
    }
    if let Some((r, g, b)) = bg {
        let ts = seq![SpecToken::Number(r), SpecToken::Number(g), SpecToken::Number(b)];
        assert(ts.len() == 3 && ts[0] == SpecToken::Number(r) && ts[1] == SpecToken::Number(g)
            && ts[2] == SpecToken::Number(b));
    }
}

/// A string is drawn as its characters would be one by one: the `i`-th cell
/// of a string is the cell that the `i`-th character alone gives with the
/// same arguments (`c` being that character), moved `i` columns right.
pub proof fn lemma_string_as_chars(
    slots: Seq<Option<SpecArg>>,
    text: Seq<char>,
    cmds: Seq<Cmd>,
    i: int,
    c: char,
)
    requires
        slots.len() == param_count(Signature::Draw),
        slots[2] == Some(SpecArg::Single(SpecToken::Str(text))),
        draw_cmds(slots) == Ok::<Seq<Cmd>, SpecParseError>(cmds),
        0 <= i < cmds.len(),
        c == text[i],
    ensures
        ({
            let one = draw_cmds(slots.update(2, Some(SpecArg::Single(SpecToken::Char(c)))));
            &&& one matches Ok(c1)
            &&& c1.len() == 1
            &&& c1[0] matches Cmd::Draw(u1)
            &&& cmds[i] matches Cmd::Draw(u)
            &&& u.glyph == u1.glyph
            &&& u.fg_color == u1.fg_color
            &&& u.bg_color == u1.bg_color
            &&& u.pos.y == u1.pos.y
            &&& u.pos.x as int == (u1.pos.x + i) % 0x10000
        }),
{
    let s2 = slots.update(2, Some(SpecArg::Single(SpecToken::Char(c))));
    assert(s2[0] == slots[0] && s2[1] == slots[1] && s2[3] == slots[3] && s2[4] == slots[4]);
    assert(cmds[i] == text_cell(
        slots[0]->Some_0->Single_0->Number_0,
        slots[1]->Some_0->Single_0->Number_0,
        text,
        draw_colors(slots[3], slots[4])->Ok_0.0,
        draw_colors(slots[3], slots[4])->Ok_0.1,
        i,
    ));
}

} // verus!
