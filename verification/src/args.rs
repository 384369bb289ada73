use vstd::prelude::*;
use crate::text::chars_eq;
use crate::token::{
    lemma_lex_progress, lex, ParseError, Signature, SpecParseError, SpecToken, Token, Tokenizer,
};

verus! {

// ---------------------------------------------------------------------------
// Argument values and failures
// ---------------------------------------------------------------------------

/// The value given for one parameter, as the contracts speak of it.
pub enum SpecArg {
    Single(SpecToken),
    Tuple(Seq<SpecToken>),
}

/// The value given for one parameter: one token, or the tokens between a
/// pair of brackets (commas dropped).
#[derive(Debug)]
pub enum ArgValue {
    Single(Token),
    Tuple(Vec<Token>),
}

impl View for ArgValue {
    type V = SpecArg;

    open spec fn view(&self) -> SpecArg {
        match self {
            ArgValue::Single(t) => SpecArg::Single(t@),
            ArgValue::Tuple(ts) => SpecArg::Tuple(tokens_view(ts@)),
        }
    }
}

/// The views of a sequence of tokens.
pub open spec fn tokens_view(ts: Seq<Token>) -> Seq<SpecToken> {
    ts.map_values(|t: Token| t@)
}

/// The views of the parameter slots.
pub open spec fn slots_view(v: Seq<Option<ArgValue>>) -> Seq<Option<SpecArg>> {
    v.map_values(
        |o: Option<ArgValue>|
            match o {
                Some(a) => Some(a@),
                None => None,
            },
    )
}

/// How reading a command line can end other than with commands.
pub enum SpecFault {
    Syntax(SpecParseError),
    /// A bracketed value at a parameter position past the last parameter:
    /// the line indexes past the parameter list.
    SlotOverflow,
}

/// How reading a command line can end other than with commands.
#[derive(Debug, PartialEq, Eq)]
pub enum Fault {
    Syntax(ParseError),
    SlotOverflow,
}

impl View for Fault {
    type V = SpecFault;

    open spec fn view(&self) -> SpecFault {
        match self {
            Fault::Syntax(e) => SpecFault::Syntax(e@),
            Fault::SlotOverflow => SpecFault::SlotOverflow,
        }
    }
}

// ---------------------------------------------------------------------------
// Parameter lists
// ---------------------------------------------------------------------------

/// How many parameters a command has.
pub open spec fn param_count(sig: Signature) -> nat {
    match sig {
        Signature::Draw => 5,
        Signature::Bare => 0,
    }
}

/// The position of the parameter called `name`, if the command has one.
pub open spec fn param_slot(sig: Signature, name: Seq<char>) -> Option<nat> {
    match sig {
        Signature::Draw => if name == seq!['x'] {
            Some(0)
        } else if name == seq!['y'] {
            Some(1)
        } else if name == seq!['g', 'l', 'y', 'p', 'h'] {
            Some(2)
        } else if name == seq!['f', 'g', '_', 'c', 'o', 'l', 'o', 'r'] {
            Some(3)
        } else if name == seq!['b', 'g', '_', 'c', 'o', 'l', 'o', 'r'] {
            Some(4)
        } else {
            None
        },
        Signature::Bare => None,
    }
}

/// The parameter names of a command, in order.
pub open spec fn param_names(sig: Signature) -> Seq<Seq<char>> {
    match sig {
        Signature::Draw => seq![
            seq!['x'],
            seq!['y'],
            seq!['g', 'l', 'y', 'p', 'h'],
            seq!['f', 'g', '_', 'c', 'o', 'l', 'o', 'r'],
            seq!['b', 'g', '_', 'c', 'o', 'l', 'o', 'r'],
        ],
        Signature::Bare => seq![],
    }
}

/// The number of parameters of a command.
pub fn signature_len(sig: Signature) -> (n: usize)
    ensures
        n == param_count(sig),
{
    match sig {
        Signature::Draw => 5,
        Signature::Bare => 0,
    }
}

/// The position of the parameter called `name`.
pub fn signature_slot(sig: Signature, name: &Vec<char>) -> (r: Option<usize>)
    ensures
        r matches Some(k) ==> param_slot(sig, name@) == Some(k as nat),
        r is None ==> param_slot(sig, name@) is None,
{
    match sig {
        Signature::Draw => {
            let x = ['x'];
            let y = ['y'];
            let glyph = ['g', 'l', 'y', 'p', 'h'];
            let fg = ['f', 'g', '_', 'c', 'o', 'l', 'o', 'r'];
            let bg = ['b', 'g', '_', 'c', 'o', 'l', 'o', 'r'];
            assert(x@ =~= seq!['x']);
            assert(y@ =~= seq!['y']);
            assert(glyph@ =~= seq!['g', 'l', 'y', 'p', 'h']);
            assert(fg@ =~= seq!['f', 'g', '_', 'c', 'o', 'l', 'o', 'r']);
            assert(bg@ =~= seq!['b', 'g', '_', 'c', 'o', 'l', 'o', 'r']);
            if chars_eq(name, &x) {
                Some(0)
            } else if chars_eq(name, &y) {
                Some(1)
            } else if chars_eq(name, &glyph) {
                Some(2)
            } else if chars_eq(name, &fg) {
                Some(3)
            } else if chars_eq(name, &bg) {
                Some(4)
            } else {
                None
            }
        },
        Signature::Bare => None,
    }
}

// ---------------------------------------------------------------------------
// Argument lists, as functions of the line
// ---------------------------------------------------------------------------

/// Reads the tokens of a bracketed value whose `(` ends before `i`, `acc`
/// being the tokens read so far: commas are dropped, a `)` or the end of the
/// line closes the value. Gives the tokens and the position after the value.
pub open spec fn read_tuple(s: Seq<char>, i: int, acc: Seq<SpecToken>) -> Result<
    (Seq<SpecToken>, int),
    SpecParseError,
>
    decreases s.len() - i,
    when 0 <= i <= s.len()
{
    match lex(s, i) {
        None => Ok((acc, s.len() as int)),
        Some(Err(e)) => Err(e),
        Some(Ok((t, k))) => {
            proof {
                lemma_lex_progress(s, i);
            }
            if t is RightBracket {
                Ok((acc, k))
            } else if t is Comma {
                read_tuple(s, k, acc)
            } else {
                read_tuple(s, k, acc.push(t))
            }
        },
    }
}

/// Where reading an argument list stands: the value bound to each
/// parameter, the next positional parameter, and whether a named argument
/// has been seen.
pub struct ArgState {
    pub slots: Seq<Option<SpecArg>>,
    pub index: nat,
    pub named: bool,
}

/// The state before the first argument.
pub open spec fn initial_state(sig: Signature) -> ArgState {
    ArgState { slots: Seq::new(param_count(sig), |k: int| None), index: 0, named: false }
}

/// Binds the next positional parameter to `v`.
pub open spec fn bind_positional(st: ArgState, v: SpecArg) -> ArgState {
    ArgState { slots: st.slots.update(st.index as int, Some(v)), index: st.index + 1, named: st.named }
}

/// Binds the parameter at `slot` to `v` by name.
pub open spec fn bind_named(st: ArgState, slot: nat, v: SpecArg) -> ArgState {
    ArgState { slots: st.slots.update(slot as int, Some(v)), index: st.index, named: true }
}

/// One step of reading an argument list.
pub enum ArgStep {
    /// The list is closed; the bindings.
    Done(Seq<Option<SpecArg>>),
    /// One more item was read; the new state and the position after it.
    Next(ArgState, int),
    Fail(SpecFault),
}

/// Reads the value of a named argument whose `=` ends before `m`.
pub open spec fn named_value(s: Seq<char>, m: int) -> Result<(SpecArg, int), SpecParseError> {
    match lex(s, m) {
        None => Err(SpecParseError::MissingValue),
        Some(Err(e)) => Err(e),
        Some(Ok((v, q))) => if v is LeftBracket {
            match read_tuple(s, q, Seq::empty()) {
                Err(e) => Err(e),
                Ok((items, r)) => Ok((SpecArg::Tuple(items), r)),
            }
        } else {
            Ok((SpecArg::Single(v), q))
        },
    }
}

/// Reads one item of an argument list at position `i`: a comma, a
/// positional value, a bracketed value, `name = value`, or the closing `)`.
pub open spec fn arg_step(s: Seq<char>, i: int, sig: Signature, st: ArgState) -> ArgStep {
    match lex(s, i) {
        None => ArgStep::Fail(SpecFault::Syntax(SpecParseError::MissingCloseParen)),
        Some(Err(e)) => ArgStep::Fail(SpecFault::Syntax(e)),
        Some(Ok((t, k))) => match t {
            SpecToken::RightBracket => ArgStep::Done(st.slots),
            SpecToken::Comma => ArgStep::Next(st, k),
            SpecToken::LeftBracket => match read_tuple(s, k, Seq::empty()) {
                Err(e) => ArgStep::Fail(SpecFault::Syntax(e)),
                Ok((items, m)) => if st.named {
                    ArgStep::Fail(SpecFault::Syntax(SpecParseError::PositionalAfterKeyword))
                } else if st.index >= param_count(sig) {
                    ArgStep::Fail(SpecFault::SlotOverflow)
                } else {
                    ArgStep::Next(bind_positional(st, SpecArg::Tuple(items)), m)
                },
            },
            SpecToken::Word(name) => match param_slot(sig, name) {
                None => ArgStep::Fail(
                    SpecFault::Syntax(SpecParseError::UnknownArgument(name, sig)),
                ),
                Some(slot) => match lex(s, k) {
                    None => ArgStep::Fail(SpecFault::Syntax(SpecParseError::MissingEqual)),
                    Some(Err(e)) => ArgStep::Fail(SpecFault::Syntax(e)),
                    Some(Ok((eq, m))) => if !(eq is Equal) {
                        ArgStep::Fail(SpecFault::Syntax(SpecParseError::ExpectedEqual(eq)))
                    } else {
                        match named_value(s, m) {
                            Err(e) => ArgStep::Fail(SpecFault::Syntax(e)),
                            Ok((v, r)) => ArgStep::Next(bind_named(st, slot, v), r),
                        }
                    },
                },
            },
            _ => if st.index >= param_count(sig) {
                ArgStep::Fail(
                    SpecFault::Syntax(SpecParseError::TooManyPositional(param_count(sig))),
                )
            } else if st.named {
                ArgStep::Fail(SpecFault::Syntax(SpecParseError::PositionalAfterKeyword))
            } else {
                ArgStep::Next(bind_positional(st, SpecArg::Single(t)), k)
            },
        },
    }
}

/// Reads argument-list items from position `i` until the list is closed.
pub open spec fn args_from(s: Seq<char>, i: int, sig: Signature, st: ArgState) -> Result<
    Seq<Option<SpecArg>>,
    SpecFault,
>
    decreases s.len() - i,
    when 0 <= i <= s.len()
{
    match arg_step(s, i, sig, st) {
        ArgStep::Done(slots) => Ok(slots),
        ArgStep::Fail(f) => Err(f),
        ArgStep::Next(next, k) => {
            proof {
                lemma_arg_step_progress(s, i, sig, st);
            }
            args_from(s, k, sig, next)
        },
    }
}

/// Reads the argument list of a command whose name ends before `i`: an
/// opening `(`, then items up to the closing `)`. Gives the value bound to
/// each parameter.
pub open spec fn parse_args(s: Seq<char>, i: int, sig: Signature) -> Result<
    Seq<Option<SpecArg>>,
    SpecFault,
> {
    match lex(s, i) {
        None => Err(SpecFault::Syntax(SpecParseError::MissingOpenParen)),
        Some(Err(e)) => Err(SpecFault::Syntax(e)),
        Some(Ok((t, k))) => if t is LeftBracket {
            args_from(s, k, sig, initial_state(sig))
        } else {
            Err(SpecFault::Syntax(SpecParseError::ExpectedOpenParen))
        },
    }
}

// ---------------------------------------------------------------------------
// Facts about argument lists
// ---------------------------------------------------------------------------

pub proof fn lemma_read_tuple_progress(s: Seq<char>, i: int, acc: Seq<SpecToken>)
    requires
        0 <= i <= s.len(),
    ensures
        read_tuple(s, i, acc) matches Ok((_, k)) ==> i <= k <= s.len(),
    decreases s.len() - i,
{
    lemma_lex_progress(s, i);
    match lex(s, i) {
        Some(Ok((t, k))) => {
            if !(t is RightBracket) {
                if t is Comma {
                    lemma_read_tuple_progress(s, k, acc);
                } else {
                    lemma_read_tuple_progress(s, k, acc.push(t));
                }
            }
        },
        _ => {},
    }
}

pub proof fn lemma_named_value_progress(s: Seq<char>, m: int)
    requires
        0 <= m <= s.len(),
    ensures
        named_value(s, m) matches Ok((_, r)) ==> m < r <= s.len(),
{
    lemma_lex_progress(s, m);
    if let Some(Ok((v, q))) = lex(s, m) {
        lemma_read_tuple_progress(s, q, Seq::empty());
    }
}

pub proof fn lemma_arg_step_progress(s: Seq<char>, i: int, sig: Signature, st: ArgState)
    requires
        0 <= i <= s.len(),
    ensures
        arg_step(s, i, sig, st) matches ArgStep::Next(_, k) ==> i < k <= s.len(),
{
    lemma_lex_progress(s, i);
    if let Some(Ok((t, k))) = lex(s, i) {
        lemma_read_tuple_progress(s, k, Seq::empty());
        lemma_lex_progress(s, k);
        if let Some(Ok((eq, m))) = lex(s, k) {
            lemma_named_value_progress(s, m);
        }
    }
}

// ---------------------------------------------------------------------------
// Reading argument lists
// ---------------------------------------------------------------------------

/// Reads a bracketed value whose `(` has been read.
fn read_tuple_exec(tokenizer: &mut Tokenizer) -> (r: Result<Vec<Token>, ParseError>)
    requires
        old(tokenizer).wf(),
    ensures
        final(tokenizer).wf(),
        final(tokenizer).text() == old(tokenizer).text(),
        match read_tuple(old(tokenizer).text(), old(tokenizer).position(), Seq::empty()) {
            Ok((items, k)) => r matches Ok(v) && tokens_view(v@) == items
                && final(tokenizer).position() == k,
            Err(e) => r matches Err(e2) && e2@ == e,
        },
{
    let ghost s = tokenizer.text();
    let ghost start = tokenizer.position();
    let mut items: Vec<Token> = Vec::new();
    assert(tokens_view(items@) =~= Seq::<SpecToken>::empty());
    loop
        invariant
            tokenizer.wf(),
            tokenizer.text() == s,
            s == old(tokenizer).text(),
            start == old(tokenizer).position(),
            0 <= start <= s.len(),
            read_tuple(s, tokenizer.position(), tokens_view(items@)) == read_tuple(
                s,
                start,
                Seq::empty(),
            ),
        decreases s.len() - tokenizer.position(),
    {
        let ghost here = tokenizer.position();
        proof {
            lemma_lex_progress(s, here);
        }
        match tokenizer.next_token() {
            None => {
                return Ok(items);
            },
            Some(Err(e)) => {
                return Err(e);
            },
            Some(Ok(tok)) => {
                match tok {
                    Token::RightBracket => {
                        return Ok(items);
                    },
                    Token::Comma => {},
                    other => {
                        let ghost before = items@;
                        let ghost tv = other@;
                        items.push(other);
                        assert(tokens_view(items@) =~= tokens_view(before).push(tv));
                    },
                }
            },
        }
    }
}

/// An argument list being read: the values bound so far, the next
/// positional parameter, and whether a named argument has been seen.
struct ArgCursor {
    slots: Vec<Option<ArgValue>>,
    index: usize,
    named: bool,
}

impl ArgCursor {
    spec fn state(&self) -> ArgState {
        ArgState { slots: slots_view(self.slots@), index: self.index as nat, named: self.named }
    }

    fn bind(&mut self, slot: usize, v: ArgValue)
        requires
            slot < old(self).slots@.len(),
        ensures
            final(self).slots@.len() == old(self).slots@.len(),
            final(self).index == old(self).index,
            final(self).named == old(self).named,
            slots_view(final(self).slots@) == slots_view(old(self).slots@).update(
                slot as int,
                Some(v@),
            ),
    {
        let ghost vv = v@;
        self.slots.set(slot, Some(v));
        assert(slots_view(self.slots@) =~= slots_view(old(self).slots@).update(
            slot as int,
            Some(vv),
        ));
    }

    /// Reads the value of a named argument whose `=` has been read.
    fn named_value_exec(tokenizer: &mut Tokenizer) -> (r: Result<ArgValue, ParseError>)
        requires
            old(tokenizer).wf(),
        ensures
            final(tokenizer).wf(),
            final(tokenizer).text() == old(tokenizer).text(),
            match named_value(old(tokenizer).text(), old(tokenizer).position()) {
                Ok((v, k)) => r matches Ok(v2) && v2@ == v && final(tokenizer).position() == k,
                Err(e) => r matches Err(e2) && e2@ == e,
            },
    {
        match tokenizer.next_token() {
            None => Err(ParseError::MissingValue),
            Some(Err(e)) => Err(e),
            Some(Ok(Token::LeftBracket)) => match read_tuple_exec(tokenizer) {
                Ok(items) => Ok(ArgValue::Tuple(items)),
                Err(e) => Err(e),
            },
            Some(Ok(v)) => Ok(ArgValue::Single(v)),
        }
    }

    /// Reads one item of the argument list; `Ok(true)` when the list is closed.
    fn step(&mut self, tokenizer: &mut Tokenizer, sig: Signature) -> (r: Result<bool, Fault>)
        requires
            old(tokenizer).wf(),
            old(self).slots@.len() == param_count(sig),
            old(self).index <= param_count(sig),
        ensures
            final(tokenizer).wf(),
            final(tokenizer).text() == old(tokenizer).text(),
            final(self).slots@.len() == param_count(sig),
            final(self).index <= param_count(sig),
            match arg_step(old(tokenizer).text(), old(tokenizer).position(), sig, old(self).state()) {
                ArgStep::Done(slots) => r matches Ok(true) && slots == old(self).state().slots
                    && final(self).state() == old(self).state(),
                ArgStep::Next(st, k) => r matches Ok(false) && final(self).state() == st
                    && final(tokenizer).position() == k,
                ArgStep::Fail(f) => r matches Err(f2) && f2@ == f,
            },
    {
        let count = signature_len(sig);
        let tok = match tokenizer.next_token() {
            None => {
                return Err(Fault::Syntax(ParseError::MissingCloseParen));
            },
            Some(Err(e)) => {
                return Err(Fault::Syntax(e));
            },
            Some(Ok(t)) => t,
        };
        match tok {
            Token::RightBracket => Ok(true),
            Token::Comma => Ok(false),
            Token::LeftBracket => {
                let items = match read_tuple_exec(tokenizer) {
                    Ok(items) => items,
                    Err(e) => {
                        return Err(Fault::Syntax(e));
                    },
                };
                if self.named {
                    return Err(Fault::Syntax(ParseError::PositionalAfterKeyword));
                }
                if self.index >= count {
                    return Err(Fault::SlotOverflow);
                }
                let slot = self.index;
                self.bind(slot, ArgValue::Tuple(items));
                self.index = slot + 1;
                Ok(false)
            },
            Token::Word(name) => {
                let slot = match signature_slot(sig, &name) {
                    None => {
                        return Err(Fault::Syntax(ParseError::UnknownArgument(name, sig)));
                    },
                    Some(k) => k,
                };
                match tokenizer.next_token() {
                    None => {
                        return Err(Fault::Syntax(ParseError::MissingEqual));
                    },
                    Some(Err(e)) => {
                        return Err(Fault::Syntax(e));
                    },
                    Some(Ok(Token::Equal)) => {},
                    Some(Ok(other)) => {
                        return Err(Fault::Syntax(ParseError::ExpectedEqual(other)));
                    },
                }
                let v = match Self::named_value_exec(tokenizer) {
                    Ok(v) => v,
                    Err(e) => {
                        return Err(Fault::Syntax(e));
                    },
                };
                self.bind(slot, v);
                self.named = true;
                Ok(false)
            },
            other => {
                if self.index >= count {
                    return Err(Fault::Syntax(ParseError::TooManyPositional(count)));
                }
                if self.named {
                    return Err(Fault::Syntax(ParseError::PositionalAfterKeyword));
                }
                let slot = self.index;
                self.bind(slot, ArgValue::Single(other));
                self.index = slot + 1;
                Ok(false)
            },
        }
    }
}

/// The values given to the parameters of one command.
pub struct ArgsContext {
    bindings: Vec<Option<ArgValue>>,
}

impl ArgsContext {
    /// The value bound to each parameter.
    pub closed spec fn slots(&self) -> Seq<Option<SpecArg>> {
        slots_view(self.bindings@)
    }

    /// The number of parameters.
    pub closed spec fn len(&self) -> nat {
        self.bindings@.len()
    }

    /// Reads the argument list of a command whose name has been read.
    pub fn parse(sig: Signature, tokenizer: &mut Tokenizer) -> (r: Result<Self, Fault>)
        requires
            old(tokenizer).wf(),
        ensures
            final(tokenizer).wf(),
            final(tokenizer).text() == old(tokenizer).text(),
            match parse_args(old(tokenizer).text(), old(tokenizer).position(), sig) {
                Ok(slots) => r matches Ok(ctx) && ctx.slots() == slots && ctx.len() == param_count(
                    sig,
                ),
                Err(f) => r matches Err(f2) && f2@ == f,
            },
    {
        match tokenizer.next_token() {
            None => {
                return Err(Fault::Syntax(ParseError::MissingOpenParen));
            },
            Some(Err(e)) => {
                return Err(Fault::Syntax(e));
            },
            Some(Ok(Token::LeftBracket)) => {},
            Some(Ok(_)) => {
                return Err(Fault::Syntax(ParseError::ExpectedOpenParen));
            },
        }
        let count = signature_len(sig);
        let mut slots: Vec<Option<ArgValue>> = Vec::new();
        let mut k: usize = 0;
        while k < count
            invariant
                k <= count,
                count == param_count(sig),
                slots@.len() == k,
                forall|j: int| 0 <= j < k ==> slots@[j] is None,
            decreases count - k,
        {
            slots.push(None);
            k = k + 1;
        }
        let mut cursor = ArgCursor { slots, index: 0, named: false };
        assert(cursor.state().slots =~= initial_state(sig).slots);
        let ghost s = tokenizer.text();
        let ghost start = tokenizer.position();
        proof {
            lemma_lex_progress(old(tokenizer).text(), old(tokenizer).position());
        }
        loop
            invariant
                tokenizer.wf(),
                tokenizer.text() == s,
                s == old(tokenizer).text(),
                0 <= start <= s.len(),
                cursor.slots@.len() == param_count(sig),
                cursor.index <= param_count(sig),
                args_from(s, tokenizer.position(), sig, cursor.state()) == args_from(
                    s,
                    start,
                    sig,
                    initial_state(sig),
                ),
                parse_args(s, old(tokenizer).position(), sig) == args_from(
                    s,
                    start,
                    sig,
                    initial_state(sig),
                ),
            decreases s.len() - tokenizer.position(),
        {
            let ghost here = tokenizer.position();
            proof {
                lemma_arg_step_progress(s, here, sig, cursor.state());
            }
            match cursor.step(tokenizer, sig) {
                Ok(true) => {
                    return Ok(ArgsContext { bindings: cursor.slots });
                },
                Ok(false) => {},
                Err(f) => {
                    return Err(f);
                },
            }
        }
    }

    /// The value bound to the parameter at `slot`, if any.
    pub fn get(&self, slot: usize) -> (r: &Option<ArgValue>)
        requires
            slot < self.len(),
        ensures
            match r {
                Some(v) => self.slots()[slot as int] == Some(v@),
                None => self.slots()[slot as int] is None,
            },
    {
        &self.bindings[slot]
    }
}

// ---------------------------------------------------------------------------
// Laws of argument lists
// ---------------------------------------------------------------------------

/// A plain value: a number, a character or a string.
pub open spec fn is_plain(t: SpecToken) -> bool {
    t is Number || t is Char || t is Str
}

proof fn lemma_param_names(sig: Signature, k: nat)
    requires
        k < param_count(sig),
    ensures
        param_names(sig).len() == param_count(sig),
        param_slot(sig, param_names(sig)[k as int]) == Some(k),
{
    match sig {
        Signature::Draw => {
            let names = param_names(sig);
            assert(names[0] =~= seq!['x']);
            assert(names[1] =~= seq!['y']);
            assert(names[2] =~= seq!['g', 'l', 'y', 'p', 'h']);
            assert(names[3] =~= seq!['f', 'g', '_', 'c', 'o', 'l', 'o', 'r']);
            assert(names[4] =~= seq!['b', 'g', '_', 'c', 'o', 'l', 'o', 'r']);
            assert(seq!['x'] != seq!['y']) by {
                assert(seq!['x'][0] != seq!['y'][0]);
            }
            assert(seq!['x'].len() != seq!['g', 'l', 'y', 'p', 'h'].len());
            assert(seq!['y'].len() != seq!['g', 'l', 'y', 'p', 'h'].len());
            assert(seq!['g', 'l', 'y', 'p', 'h'].len() != seq!['f', 'g', '_', 'c', 'o', 'l', 'o', 'r'].len());
            assert(seq!['f', 'g', '_', 'c', 'o', 'l', 'o', 'r'] != seq!['b', 'g', '_', 'c', 'o', 'l', 'o', 'r']) by {
                assert(seq!['f', 'g', '_', 'c', 'o', 'l', 'o', 'r'][0] != seq!['b', 'g', '_', 'c', 'o', 'l', 'o', 'r'][0]);
            }
        },
        Signature::Bare => {},
    }
}

/// Arguments may be given by position or by name alike: where the next
/// positional parameter is the `k`-th and no name has been used, a plain
/// value read at its position binds the parameters exactly as
/// `name = value` with the `k`-th parameter's name does.
pub proof fn lemma_positional_as_named(
    s1: Seq<char>,
    i: int,
    k1: int,
    s2: Seq<char>,
    j: int,
    j1: int,
    j2: int,
    j3: int,
    sig: Signature,
    st: ArgState,
    v: SpecToken,
)
    requires
        st.index < param_count(sig),
        !st.named,
        is_plain(v),
        lex(s1, i) == Some(Ok::<(SpecToken, int), SpecParseError>((v, k1))),
        lex(s2, j) == Some(
            Ok::<(SpecToken, int), SpecParseError>(
                (SpecToken::Word(param_names(sig)[st.index as int]), j1),
            ),
        ),
        lex(s2, j1) == Some(Ok::<(SpecToken, int), SpecParseError>((SpecToken::Equal, j2))),
        lex(s2, j2) == Some(Ok::<(SpecToken, int), SpecParseError>((v, j3))),
    ensures
        arg_step(s1, i, sig, st) matches ArgStep::Next(a, _),
        arg_step(s2, j, sig, st) matches ArgStep::Next(b, _),
        arg_step(s1, i, sig, st)->Next_0.slots == arg_step(s2, j, sig, st)->Next_0.slots,
{
    lemma_param_names(sig, st.index);
}

/// A bracketed value, too, binds the parameters alike whether given at the
/// `k`-th position (before any named argument) or as `name = (...)` with
/// the `k`-th parameter's name.
pub proof fn lemma_positional_tuple_as_named(
    s1: Seq<char>,
    i: int,
    k1: int,
    s2: Seq<char>,
    j: int,
    j1: int,
    j2: int,
    j3: int,
    sig: Signature,
    st: ArgState,
    items: Seq<SpecToken>,
    e1: int,
    e2: int,
)
    requires
        !st.named,
        st.index < param_count(sig),
        lex(s1, i) == Some(Ok::<(SpecToken, int), SpecParseError>((SpecToken::LeftBracket, k1))),
        read_tuple(s1, k1, Seq::empty()) == Ok::<(Seq<SpecToken>, int), SpecParseError>((items, e1)),
        lex(s2, j) == Some(
            Ok::<(SpecToken, int), SpecParseError>(
                (SpecToken::Word(param_names(sig)[st.index as int]), j1),
            ),
        ),
        lex(s2, j1) == Some(Ok::<(SpecToken, int), SpecParseError>((SpecToken::Equal, j2))),
        lex(s2, j2) == Some(Ok::<(SpecToken, int), SpecParseError>((SpecToken::LeftBracket, j3))),
        read_tuple(s2, j3, Seq::empty()) == Ok::<(Seq<SpecToken>, int), SpecParseError>((items, e2)),
    ensures
        arg_step(s1, i, sig, st) matches ArgStep::Next(a, _),
        arg_step(s2, j, sig, st) matches ArgStep::Next(b, _),
        arg_step(s1, i, sig, st)->Next_0.slots == arg_step(s2, j, sig, st)->Next_0.slots,
{
    lemma_param_names(sig, st.index);
}

/// Once a named argument has been given, a positional one is refused.
pub proof fn lemma_positional_after_named(
    s: Seq<char>,
    i: int,
    k: int,
    sig: Signature,
    st: ArgState,
    v: SpecToken,
)
    requires
        st.named,
        st.index < param_count(sig),
        is_plain(v),
        lex(s, i) == Some(Ok::<(SpecToken, int), SpecParseError>((v, k))),
    ensures
        arg_step(s, i, sig, st) == ArgStep::Fail(
            SpecFault::Syntax(SpecParseError::PositionalAfterKeyword),
        ),
{
}

/// Once a named argument has been given, a bracketed positional value is
/// refused too.
pub proof fn lemma_positional_tuple_after_named(
    s: Seq<char>,
    i: int,
    k: int,
    sig: Signature,
    st: ArgState,
    items: Seq<SpecToken>,
    e: int,
)
    requires
        st.named,
        lex(s, i) == Some(Ok::<(SpecToken, int), SpecParseError>((SpecToken::LeftBracket, k))),
        read_tuple(s, k, Seq::empty()) == Ok::<(Seq<SpecToken>, int), SpecParseError>((items, e)),
    ensures
        arg_step(s, i, sig, st) == ArgStep::Fail(
            SpecFault::Syntax(SpecParseError::PositionalAfterKeyword),
        ),
{
}

} // verus!
