use drawbridge::args::Fault;
use drawbridge::cmd::{CellUpdate, Cmd, Point, RgbColor};
use drawbridge::parser::Parser;
use drawbridge::token::{ParseError, Signature, Token, Tokenizer};

fn parse(line: &str) -> Result<Vec<Cmd>, ParseError> {
    Parser::new().parse_line(line)
}

fn draw(x: u16, y: u16, glyph: char, fg: Option<RgbColor>, bg: Option<RgbColor>) -> Cmd {
    Cmd::Draw(CellUpdate { pos: Point { x, y }, glyph, fg_color: fg, bg_color: bg })
}

fn rgb(r: u8, g: u8, b: u8) -> Option<RgbColor> {
    Some(RgbColor { r, g, b })
}

fn chars(s: &str) -> Vec<char> {
    s.chars().collect()
}

#[test]
fn draw_string_positional() {
    let cmds = parse("Draw(0, 0, \"Hello World\")").unwrap();
    assert_eq!(cmds.len(), 11);
    for (i, c) in "Hello World".chars().enumerate() {
        assert_eq!(cmds[i], draw(i as u16, 0, c, None, None));
    }
}

#[test]
fn draw_named_any_order() {
    let cmds = parse("Draw(y = 5, glyph = 'A', x = 10, bg_color = (0, 0, 0))").unwrap();
    assert_eq!(cmds, vec![draw(10, 5, 'A', None, rgb(0, 0, 0))]);
}

#[test]
fn draw_mixed_styles() {
    let cmds = parse("Draw(10, 5, 'X', fg_color=(255,255,0), bg_color=(0,0,255))").unwrap();
    assert_eq!(cmds, vec![draw(10, 5, 'X', rgb(255, 255, 0), rgb(0, 0, 255))]);
}

#[test]
fn positional_and_named_agree() {
    let a = parse("Draw(3, 4, 'q', (1, 2, 3))").unwrap();
    let b = parse("Draw(x=3, y=4, glyph='q', fg_color=(1, 2, 3))").unwrap();
    let c = parse("Draw(3, y=4, fg_color=(1,2,3), glyph='q')").unwrap();
    assert_eq!(a, b);
    assert_eq!(a, c);
}

#[test]
fn bare_commands() {
    assert_eq!(parse("Clear()").unwrap(), vec![Cmd::Clear]);
    assert_eq!(parse("  Flush( )  ").unwrap(), vec![Cmd::Flush]);
    assert_eq!(parse("QuerySize()").unwrap(), vec![Cmd::QuerySize]);
    assert_eq!(parse("Flush(,,)").unwrap(), vec![Cmd::Flush]);
}

#[test]
fn blank_lines_hold_nothing() {
    assert_eq!(parse("").unwrap(), vec![]);
    assert_eq!(parse("   \t  ").unwrap(), vec![]);
    assert_eq!(parse("\u{3000}\u{a0}").unwrap(), vec![]);
}

#[test]
fn line_not_starting_with_a_word_holds_nothing() {
    assert_eq!(parse("(1, 2)").unwrap(), vec![]);
    assert_eq!(parse("123 Draw(0,0,'a')").unwrap(), vec![]);
}

#[test]
fn text_after_the_command_is_not_read() {
    assert_eq!(parse("Flush() @@ \"unterminated").unwrap(), vec![Cmd::Flush]);
}

#[test]
fn colours_are_cut_to_eight_bits() {
    let cmds = parse("Draw(1, 2, 'c', fg_color=(300, 256, 255))").unwrap();
    assert_eq!(cmds, vec![draw(1, 2, 'c', rgb(44, 0, 255), None)]);
}

#[test]
fn colour_given_as_single_value_is_refused() {
    assert_eq!(parse("Draw(1, 2, 'c', fg_color=5)"), Err(ParseError::InvalidFgColor));
    assert_eq!(parse("Draw(1, 2, \"ab\", 1, bg_color='x')"), Err(ParseError::InvalidFgColor));
    assert_eq!(parse("Draw(1, 2, 'c', bg_color=\"red\")"), Err(ParseError::InvalidBgColor));
}

#[test]
fn string_columns_wrap() {
    let cmds = parse("Draw(65535, 7, \"ab\")").unwrap();
    assert_eq!(cmds, vec![draw(65535, 7, 'a', None, None), draw(0, 7, 'b', None, None)]);
}

#[test]
fn empty_string_draws_nothing() {
    assert_eq!(parse("Draw(0, 0, \"\")").unwrap(), vec![]);
    assert_eq!(parse("Draw(0, 0, \"\", fg_color=(1))"), Err(ParseError::InvalidFgColor));
    assert_eq!(parse("Draw(0, 0, \"\", bg_color=(1, 2, 3, 4))"), Err(ParseError::InvalidBgColor));
}

#[test]
fn string_escapes() {
    let cmds = parse("Draw(0, 0, \"a\\\"\\\\b\")").unwrap();
    assert_eq!(
        cmds,
        vec![
            draw(0, 0, 'a', None, None),
            draw(1, 0, '"', None, None),
            draw(2, 0, '\\', None, None),
            draw(3, 0, 'b', None, None),
        ]
    );
}

#[test]
fn char_escapes() {
    assert_eq!(parse("Draw(0, 0, '\\'')").unwrap(), vec![draw(0, 0, '\'', None, None)]);
    assert_eq!(parse("Draw(0, 0, '\\\\')").unwrap(), vec![draw(0, 0, '\\', None, None)]);
    assert_eq!(parse("Draw(0, 0, 'é')").unwrap(), vec![draw(0, 0, 'é', None, None)]);
}

#[test]
fn leading_zeros_are_accepted() {
    assert_eq!(parse("Draw(0007, 00065535, 'z')").unwrap(), vec![draw(7, 65535, 'z', None, None)]);
}

#[test]
fn lexical_errors() {
    assert_eq!(parse("Draw(70000, 0, 'a')"), Err(ParseError::NumberTooLarge(chars("70000"))));
    assert_eq!(parse("Draw(0, 0, '"), Err(ParseError::MissingCharAfterQuote));
    assert_eq!(parse("Draw(0, 0, '\\"), Err(ParseError::MissingEscapedChar));
    assert_eq!(parse("Draw(0, 0, '\\n')"), Err(ParseError::InvalidCharEscape('n')));
    assert_eq!(parse("Draw(0, 0, 'a"), Err(ParseError::UnterminatedChar));
    assert_eq!(parse("Draw(0, 0, 'ab')"), Err(ParseError::CharNotClosed('b')));
    assert_eq!(parse("Draw(0, 0, \"a\\n\")"), Err(ParseError::InvalidStringEscape('n')));
    assert_eq!(parse("Draw(0, 0, \"a\\"), Err(ParseError::MissingEscapedChar));
    assert_eq!(parse("Draw(0, 0, \"abc"), Err(ParseError::UnterminatedString));
    assert_eq!(parse("Draw(0, 0, @)"), Err(ParseError::UnexpectedChar('@')));
    assert_eq!(parse("_x()"), Err(ParseError::UnexpectedChar('_')));
}

#[test]
fn argument_list_errors() {
    assert_eq!(parse("Draw"), Err(ParseError::MissingOpenParen));
    assert_eq!(parse("Draw x"), Err(ParseError::ExpectedOpenParen));
    assert_eq!(parse("Draw(0, 0, 'a'"), Err(ParseError::MissingCloseParen));
    assert_eq!(parse("Draw(z=1)"), Err(ParseError::UnknownArgument(chars("z"), Signature::Draw)));
    assert_eq!(parse("Clear(x=1)"), Err(ParseError::UnknownArgument(chars("x"), Signature::Bare)));
    assert_eq!(parse("Draw(x"), Err(ParseError::MissingEqual));
    assert_eq!(parse("Draw(x 1)"), Err(ParseError::ExpectedEqual(Token::Number(1))));
    assert_eq!(parse("Draw(x="), Err(ParseError::MissingValue));
    assert_eq!(parse("Draw(0, 0, 'a', 1, 2, 3)"), Err(ParseError::TooManyPositional(5)));
    assert_eq!(parse("Flush(1)"), Err(ParseError::TooManyPositional(0)));
    assert_eq!(parse("Draw(x=1, 2)"), Err(ParseError::PositionalAfterKeyword));
}

#[test]
fn draw_argument_errors() {
    assert_eq!(parse("Draw('a', 0, 'b')"), Err(ParseError::InvalidX));
    assert_eq!(parse("Draw(0, \"y\", 'b')"), Err(ParseError::InvalidY));
    assert_eq!(parse("Draw(0, 0)"), Err(ParseError::MissingGlyph));
    assert_eq!(parse("Draw(0, 0, 1)"), Err(ParseError::InvalidGlyph));
    assert_eq!(parse("Draw(0, 0, 'a', (1, 2))"), Err(ParseError::InvalidFgColor));
    assert_eq!(parse("Draw(0, 0, 'a', bg_color=(1, 2, 'c'))"), Err(ParseError::InvalidBgColor));
    assert_eq!(parse("Draw(x=1, (1, 2, 3))"), Err(ParseError::PositionalAfterKeyword));
    assert_eq!(
        parse("Draw(1, 2, 'a', fg_color = (1, 2, 3), (4, 5, 6))"),
        Err(ParseError::PositionalAfterKeyword)
    );
}

#[test]
fn unknown_command() {
    assert_eq!(parse("Paint(0, 0)"), Err(ParseError::UnknownCommand(chars("Paint"))));
}

#[test]
fn bracketed_value_past_the_last_parameter() {
    let mut p = Parser::new();
    assert_eq!(p.try_parse_line("Flush(())"), Err(Fault::SlotOverflow));
    assert_eq!(p.try_parse_line("Draw(0,0,'a',(1,2,3),(1,2,3),(4,5,6))"), Err(Fault::SlotOverflow));
    assert_eq!(p.try_parse_line("Flush(1)"), Err(Fault::Syntax(ParseError::TooManyPositional(0))));
    assert_eq!(p.try_parse_line("Clear()"), Ok(vec![Cmd::Clear]));
}

#[test]
fn unclosed_tuple_still_needs_the_closing_paren() {
    assert_eq!(parse("Draw(0, 0, 'a', (1, 2, 3"), Err(ParseError::MissingCloseParen));
}

#[test]
fn words_beyond_ascii() {
    assert_eq!(parse("Größe()"), Err(ParseError::UnknownCommand(chars("Größe"))));
    assert_eq!(parse("Draw_x()"), Err(ParseError::UnknownCommand(chars("Draw_x"))));
    assert_eq!(parse("\u{2003}Clear\u{2028}()"), Ok(vec![Cmd::Clear]));
    assert_eq!(parse("Draw(0, 0, '\u{85}')"), Ok(vec![draw(0, 0, '\u{85}', None, None)]));
    assert_eq!(parse("Draw(0, 0, 7x)"), Err(ParseError::ExpectedEqual(Token::RightBracket)));
}

#[test]
fn lexer_stands_after_what_it_took() {
    let mut t = Tokenizer::new("70000 5");
    assert_eq!(t.next_token(), Some(Err(ParseError::NumberTooLarge(chars("70000")))));
    assert_eq!(t.next_token(), Some(Ok(Token::Number(5))));
    assert_eq!(t.next_token(), None);
    let mut t = Tokenizer::new("\"a\\q\" 3");
    assert_eq!(t.next_token(), Some(Err(ParseError::InvalidStringEscape('q'))));
    assert_eq!(t.next_token(), Some(Err(ParseError::UnterminatedString)));
    let mut t = Tokenizer::new("'ab' 4");
    assert_eq!(t.next_token(), Some(Err(ParseError::CharNotClosed('b'))));
    assert_eq!(t.next_token(), Some(Err(ParseError::CharNotClosed('4'))));
    let mut t = Tokenizer::new("@ 1");
    assert_eq!(t.next_token(), Some(Err(ParseError::UnexpectedChar('@'))));
    assert_eq!(t.next_token(), Some(Err(ParseError::UnexpectedChar('@'))));
}

#[test]
fn literals_read_back() {
    for c in ['a', '\\', '\'', '"', ' ', 'é'] {
        let lit = if c == '\\' || c == '\'' { format!("'\\{}'", c) } else { format!("'{}'", c) };
        assert_eq!(parse(&format!("Draw(0, 0, {})", lit)), Ok(vec![draw(0, 0, c, None, None)]));
    }
    let s = "a\"b\\c'd";
    let escaped: String = s
        .chars()
        .map(|c| if c == '\\' || c == '"' { format!("\\{}", c) } else { c.to_string() })
        .collect();
    let cmds = parse(&format!("Draw(0, 0, \"{}\")", escaped)).unwrap();
    let drawn: String = cmds
        .iter()
        .map(|c| if let Cmd::Draw(u) = c { u.glyph } else { '?' })
        .collect();
    assert_eq!(drawn, s);
}
