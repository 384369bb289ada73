use vstd::prelude::*;
use crate::text::{char_at, chars_of, char_is_whitespace, is_white_space};
use crate::token::{lemma_skip_ws, skip_ws};

verus! {

// ---------------------------------------------------------------------------
// The command line of the program
// ---------------------------------------------------------------------------

/// The flag that introduces the command to run.
pub open spec fn exec_flag() -> Seq<char> {
    seq!['-', '-', 'e', 'x', 'e', 'c']
}

/// The texts of a list of strings.
pub open spec fn strings_view(v: Seq<String>) -> Seq<Seq<char>> {
    v.map_values(|s: String| s@)
}

/// The position of the first `--exec` at or after `i`.
pub open spec fn find_exec(args: Seq<Seq<char>>, i: int) -> Option<int>
    decreases args.len() - i,
{
    if i < 0 || i >= args.len() {
        None
    } else if args[i] == exec_flag() {
        Some(i)
    } else {
        find_exec(args, i + 1)
    }
}

/// Why the program's own command line is refused.
#[derive(Debug, Copy, Clone, PartialEq, Eq)]
pub enum ArgsError {
    /// No `--exec` flag.
    MissingExec,
    /// `--exec` is the last argument.
    MissingCommand,
}

/// The command to run: the argument after the first `--exec`.
pub open spec fn exec_command_spec(args: Seq<Seq<char>>) -> Result<Seq<char>, ArgsError> {
    match find_exec(args, 0) {
        None => Err(ArgsError::MissingExec),
        Some(i) => if i + 1 < args.len() {
            Ok(args[i + 1])
        } else {
            Err(ArgsError::MissingCommand)
        },
    }
}

/// The command to run, from the program's arguments.
pub fn exec_command(args: &Vec<String>) -> (r: Result<String, ArgsError>)
    ensures
        match exec_command_spec(strings_view(args@)) {
            Ok(c) => r matches Ok(s) && s@ == c,
            Err(e) => r == Err::<String, ArgsError>(e),
        },
{
    proof {
        reveal_strlit("--exec");
    }
    let flag = String::from_str("--exec");
    assert(flag@ =~= exec_flag());
    let ghost a = strings_view(args@);
    let mut i: usize = 0;
    while i < args.len()
        invariant
            i <= args@.len(),
            a == strings_view(args@),
            flag@ == exec_flag(),
            find_exec(a, i as int) == find_exec(a, 0),
        decreases args@.len() - i,
    {
        if args[i] == flag {
            if i + 1 < args.len() {
                return Ok(args[i + 1].clone());
            } else {
                return Err(ArgsError::MissingCommand);
            }
        }
        i = i + 1;
    }
    Err(ArgsError::MissingExec)
}

// ---------------------------------------------------------------------------
// Splitting the command into words
// ---------------------------------------------------------------------------

/// The end of the run of characters that are not white space from `i`.
pub open spec fn word_run_end(s: Seq<char>, i: int) -> int
    decreases s.len() - i,
{
    if 0 <= i < s.len() && !is_white_space(s[i]) {
        word_run_end(s, i + 1)
    } else {
        i
    }
}

pub proof fn lemma_word_run_end(s: Seq<char>, i: int)
    requires
        0 <= i <= s.len(),
    ensures
        i <= word_run_end(s, i) <= s.len(),
    decreases s.len() - i,
{
    if i < s.len() && !is_white_space(s[i]) {
        lemma_word_run_end(s, i + 1);
    }
}

/// The words of `s` from position `i`: the maximal runs of characters that
/// are not white space, in order.
pub open spec fn words_from(s: Seq<char>, i: int) -> Seq<Seq<char>>
    decreases s.len() - i,
    when 0 <= i <= s.len()
{
    let p = skip_ws(s, i);
    proof {
        lemma_skip_ws(s, i);
    }
    if p >= s.len() {
        seq![]
    } else {
        let e = word_run_end(s, p);
        proof {
            lemma_word_run_end(s, p + 1);
        }
        seq![s.subrange(p, e)] + words_from(s, e)
    }
}

/// The words of a command: the program, then its arguments.
pub fn command_words(cmd: &str) -> (words: Vec<String>)
    ensures
        strings_view(words@) == words_from(cmd@, 0),
{
    let chars = chars_of(cmd);
    let ghost s = cmd@;
    let n = chars.len();
    let mut words: Vec<String> = Vec::new();
    let mut i: usize = 0;
    while i < n
        invariant
            chars@ == s,
            s == cmd@,
            n == s.len(),
            i <= n,
            strings_view(words@) + words_from(s, i as int) == words_from(s, 0),
        decreases n - i,
    {
        let ghost at = i as int;
        while i < n && char_is_whitespace(char_at(&chars, i))
            invariant
                chars@ == s,
                s == cmd@,
                n == s.len(),
                at <= i <= n,
                skip_ws(s, i as int) == skip_ws(s, at),
            decreases n - i,
        {
            i = i + 1;
        }
        if i < n {
            let start = i;
            while i < n && !char_is_whitespace(char_at(&chars, i))
                invariant
                    chars@ == s,
                    s == cmd@,
                    n == s.len(),
                    start <= i <= n,
                    word_run_end(s, i as int) == word_run_end(s, start as int),
                decreases n - i,
            {
                i = i + 1;
            }
            let piece = cmd.substring_char(start, i);
            let ghost before = words@;
            words.push(String::from_str(piece));
            proof {
                lemma_word_run_end(s, start as int + 1);
                assert(strings_view(words@) =~= strings_view(before).push(s.subrange(start as int, i as int)));
                assert(words_from(s, at) == seq![s.subrange(start as int, i as int)] + words_from(s, i as int));
                assert(strings_view(words@) + words_from(s, i as int) =~= strings_view(before) + words_from(s, at));
            }
        } else {
            proof {
                assert(words_from(s, at) == Seq::<Seq<char>>::empty());
                assert(words_from(s, i as int) == Seq::<Seq<char>>::empty());
            }
        }
    }
    proof {
        assert(words_from(s, n as int) == Seq::<Seq<char>>::empty());
        assert(strings_view(words@) =~= strings_view(words@) + Seq::<Seq<char>>::empty());
    }
    words
}

} // verus!
