use vstd::prelude::*;
use crate::token::{
    decimal_digit, decimal_value, lemma_decimal_value_digits, lemma_number_round_trip, lex,
    SpecParseError, SpecToken,
};

verus! {

// ---------------------------------------------------------------------------
// Decimal numbers
// ---------------------------------------------------------------------------

/// The decimal digits.
pub open spec fn digit(d: int) -> char {
    seq!['0', '1', '2', '3', '4', '5', '6', '7', '8', '9'][d]
}

/// The decimal numeral of `n`, without leading zeros.
pub open spec fn decimal(n: nat) -> Seq<char>
    decreases n,
{
    if n < 10 {
        seq![digit(n as int)]
    } else {
        decimal(n / 10).push(digit((n % 10) as int))
    }
}

fn append_digit(s: &mut String, d: u16)
    requires
        d < 10,
    ensures
        final(s)@ == old(s)@.push(digit(d as int)),
{
    proof {
        reveal_strlit("0");
        reveal_strlit("1");
        reveal_strlit("2");
        reveal_strlit("3");
        reveal_strlit("4");
        reveal_strlit("5");
        reveal_strlit("6");
        reveal_strlit("7");
        reveal_strlit("8");
        reveal_strlit("9");
    }
    match d {
        0 => s.append("0"),
        1 => s.append("1"),
        2 => s.append("2"),
        3 => s.append("3"),
        4 => s.append("4"),
        5 => s.append("5"),
        6 => s.append("6"),
        7 => s.append("7"),
        8 => s.append("8"),
        _ => s.append("9"),
    }
    assert(s@ =~= old(s)@.push(digit(d as int)));
}

/// Appends the decimal numeral of `n`.
pub fn append_decimal(s: &mut String, n: u16)
    ensures
        final(s)@ == old(s)@ + decimal(n as nat),
    decreases n,
{
    if n >= 10 {
        append_decimal(s, n / 10);
    }
    append_digit(s, n % 10);
    assert(s@ =~= old(s)@ + decimal(n as nat));
}

// ---------------------------------------------------------------------------
// Messages to the driven process
// ---------------------------------------------------------------------------

/// The answer to a size query: `Size|<width>|<height>` and a newline.
pub open spec fn size_reply_text(w: u16, h: u16) -> Seq<char> {
    seq!['S', 'i', 'z', 'e', '|'] + decimal(w as nat) + seq!['|'] + decimal(h as nat) + seq!['\n']
}

/// The event sent when the terminal is resized:
/// `Resize|<width>|<height>` and a newline.
pub open spec fn resize_event_text(w: u16, h: u16) -> Seq<char> {
    seq!['R', 'e', 's', 'i', 'z', 'e', '|'] + decimal(w as nat) + seq!['|'] + decimal(h as nat)
        + seq!['\n']
}

/// The event sent when a key is pressed: `Key|<code>|<modifiers>` and a
/// newline, the code and modifiers as the terminal library names them.
pub open spec fn key_event_text(code: Seq<char>, modifiers: Seq<char>) -> Seq<char> {
    seq!['K', 'e', 'y', '|'] + code + seq!['|'] + modifiers + seq!['\n']
}

/// The answer to a size query.
pub fn size_reply(w: u16, h: u16) -> (s: String)
    ensures
        s@ == size_reply_text(w, h),
{
    proof {
        reveal_strlit("Size|");
        reveal_strlit("|");
        reveal_strlit("\n");
    }
    let mut s = String::from_str("Size|");
    append_decimal(&mut s, w);
    s.append("|");
    append_decimal(&mut s, h);
    s.append("\n");
    assert(s@ =~= size_reply_text(w, h));
    s
}

/// A terminal event, as the driven process is told of it.
#[derive(Debug)]
pub enum InputEvent {
    /// A key press: the key code and the modifiers, as the terminal library
    /// names them.
    Key { code: String, modifiers: String },
    /// The terminal now has this many columns and rows.
    Resize(u16, u16),
    /// Any other event; it is not passed on.
    Other,
}

/// The text that tells the driven process of `ev`: one line, or nothing for
/// an event that is not passed on.
pub open spec fn event_text(ev: InputEvent) -> Option<Seq<char>> {
    match ev {
        InputEvent::Key { code, modifiers } => Some(key_event_text(code@, modifiers@)),
        InputEvent::Resize(w, h) => Some(resize_event_text(w, h)),
        InputEvent::Other => None,
    }
}

/// The text that tells the driven process of `ev`.
pub fn event_message(ev: &InputEvent) -> (r: Option<String>)
    ensures
        match event_text(*ev) {
            Some(t) => r matches Some(s) && s@ == t,
            None => r is None,
        },
{
    proof {
        reveal_strlit("Key|");
        reveal_strlit("Resize|");
        reveal_strlit("|");
        reveal_strlit("\n");
    }
    match ev {
        InputEvent::Key { code, modifiers } => {
            let mut s = String::from_str("Key|");
            s.append(code.as_str());
            s.append("|");
            s.append(modifiers.as_str());
            s.append("\n");
            assert(s@ =~= key_event_text(code@, modifiers@));
            Some(s)
        },
        InputEvent::Resize(w, h) => {
            let mut s = String::from_str("Resize|");
            append_decimal(&mut s, *w);
            s.append("|");
            append_decimal(&mut s, *h);
            s.append("\n");
            assert(s@ =~= resize_event_text(*w, *h));
            Some(s)
        },
        InputEvent::Other => None,
    }
}

/// The size the display takes on after `ev`: a resize event carries one.
pub fn event_resize(ev: &InputEvent) -> (r: Option<(u16, u16)>)
    ensures
        r == (match *ev {
            InputEvent::Resize(w, h) => Some((w, h)),
            _ => None,
        }),
{
    match ev {
        InputEvent::Resize(w, h) => Some((*w, *h)),
        _ => None,
    }
}

// ---------------------------------------------------------------------------
// Laws of numerals
// ---------------------------------------------------------------------------

/// The digit for `d` is the character whose code is that of `'0'` plus `d`.
pub proof fn lemma_digit_code(d: int)
    requires
        0 <= d < 10,
    ensures
        (digit(d) as u32) == 48 + d,
{
    let ds = seq!['0', '1', '2', '3', '4', '5', '6', '7', '8', '9'];
    assert(ds[0] == '0' && ds[1] == '1' && ds[2] == '2' && ds[3] == '3' && ds[4] == '4');
    assert(ds[5] == '5' && ds[6] == '6' && ds[7] == '7' && ds[8] == '8' && ds[9] == '9');
}

/// The numeral written for `n` is made of decimal digits and reads back as
/// `n`.
pub proof fn lemma_decimal_reads_back(n: nat)
    ensures
        decimal(n).len() > 0,
        forall|k: int| 0 <= k < decimal(n).len() ==> decimal_digit(#[trigger] decimal(n)[k]),
        decimal_value(decimal(n)) == n,
    decreases n,
{
    if n < 10 {
        lemma_digit_code(n as int);
        lemma_decimal_value_digits(Seq::empty(), digit(n as int));
    } else {
        lemma_decimal_reads_back(n / 10);
        let d = (n % 10) as int;
        lemma_digit_code(d);
        lemma_decimal_value_digits(decimal(n / 10), digit(d));
        let p = decimal(n / 10);
        assert forall|k: int| 0 <= k < decimal(n).len() implies decimal_digit(
            #[trigger] decimal(n)[k],
        ) by {
            if k < p.len() {
                assert(decimal(n)[k] == p[k]);
            }
        }
    }
}

/// A size or event the program sends reads back through the lexer: the
/// numeral written for `n`, followed by anything but a digit, is the number
/// `n`.
pub proof fn lemma_decimal_lexes_back(n: u16, tail: Seq<char>)
    requires
        tail.len() == 0 || !decimal_digit(tail[0]),
    ensures
        lex(decimal(n as nat) + tail, 0) == Some(
            Ok::<(SpecToken, int), SpecParseError>(
                (SpecToken::Number(n), decimal(n as nat).len() as int),
            ),
        ),
{
    lemma_decimal_reads_back(n as nat);
    lemma_number_round_trip(decimal(n as nat), tail);
}

} // verus!
