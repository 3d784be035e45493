use vstd::prelude::*;
use crate::client::Category;

verus! {

/// One action typed by the user at the prompt.
#[derive(Debug, Clone, Copy, PartialEq, Eq, Structural)]
pub enum Command {
    /// `top n`: the first `n` top stories.
    Top(usize),
    /// `new n`: the first `n` newest stories.
    New(usize),
    /// `show n`: the first `n` stories of the Show list. The argument is a
    /// count, as for the other lists, not the id of an item.
    Show(usize),
    /// `ask n`: the first `n` stories of the Ask list.
    Ask(usize),
    /// `jobs n`: the first `n` job postings.
    Jobs(usize),
    /// `help` or `?`.
    Help,
    /// `exit` or `quit`.
    Exit,
}

/// Why a line of input is not a command.
#[derive(Debug, Clone, Copy, PartialEq, Eq, Structural)]
pub enum ErrorKind {
    /// The first word is not a known verb (or there is no first word).
    UnknownVerb,
    /// The verb needs a count and none follows it.
    MissingArgument,
    /// The word after the verb is not an unsigned integer that fits in `usize`.
    InvalidArgument,
}

/// A parse failure, carrying the offending input for display.
#[derive(Debug, Clone)]
pub struct CommandError {
    pub kind: ErrorKind,
    pub input: String,
}

/// The verbs of the command language.
#[derive(Debug, Clone, Copy, PartialEq, Eq, Structural)]
pub enum Verb {
    Top,
    New,
    Show,
    Ask,
    Jobs,
    Help,
    Exit,
}

/// Unicode `White_Space`, the set that `char::is_whitespace` tests.
pub open spec fn is_ws_char(c: char) -> bool {
    let u = c as u32;
    (0x09 <= u && u <= 0x0d) || u == 0x20 || u == 0x85 || u == 0xa0 || u == 0x1680 || (0x2000
        <= u && u <= 0x200a) || u == 0x2028 || u == 0x2029 || u == 0x202f || u == 0x205f || u
        == 0x3000
}

/// The characters that separate a verb from its argument.
pub open spec fn is_blank(c: char) -> bool {
    c == ' ' || c == '\t'
}

pub open spec fn is_digit(c: char) -> bool {
    '0' <= c && c <= '9'
}

/// End of the run of non-whitespace characters that starts at `i`.
pub open spec fn word_end(s: Seq<char>, i: int) -> int
    decreases s.len() - i,
{
    if i < 0 || i >= s.len() || is_ws_char(s[i]) {
        i
    } else {
        word_end(s, i + 1)
    }
}

/// End of the run of blanks that starts at `i`.
pub open spec fn blank_end(s: Seq<char>, i: int) -> int
    decreases s.len() - i,
{
    if i < 0 || i >= s.len() || !is_blank(s[i]) {
        i
    } else {
        blank_end(s, i + 1)
    }
}

pub open spec fn all_digits(t: Seq<char>) -> bool {
    forall|i: int| 0 <= i < t.len() ==> is_digit(#[trigger] t[i])
}

/// The number written in decimal by `t`.
pub open spec fn digits_value(t: Seq<char>) -> nat
    decreases t.len(),
{
    if t.len() == 0 {
        0
    } else {
        digits_value(t.drop_last()) * 10 + (t.last() as u32 - '0' as u32) as nat
    }
}

/// The unsigned integer that `t` writes: an optional `+`, then at least one
/// decimal digit, with a value that fits in `usize`.
pub open spec fn count_of(t: Seq<char>) -> Option<usize> {
    let d = if t.len() > 0 && t[0] == '+' {
        t.drop_first()
    } else {
        t
    };
    if d.len() > 0 && all_digits(d) && digits_value(d) <= usize::MAX {
        Some(digits_value(d) as usize)
    } else {
        None
    }
}

/// The verb that the word `w` spells, if any.
pub open spec fn verb_of(w: Seq<char>) -> Option<Verb> {
    if w.len() == 3 && w[0] == 't' && w[1] == 'o' && w[2] == 'p' {
        Some(Verb::Top)
    } else if w.len() == 3 && w[0] == 'n' && w[1] == 'e' && w[2] == 'w' {
        Some(Verb::New)
    } else if w.len() == 4 && w[0] == 's' && w[1] == 'h' && w[2] == 'o' && w[3] == 'w' {
        Some(Verb::Show)
    } else if w.len() == 3 && w[0] == 'a' && w[1] == 's' && w[2] == 'k' {
        Some(Verb::Ask)
    } else if w.len() == 4 && w[0] == 'j' && w[1] == 'o' && w[2] == 'b' && w[3] == 's' {
        Some(Verb::Jobs)
    } else if w.len() == 4 && w[0] == 'h' && w[1] == 'e' && w[2] == 'l' && w[3] == 'p' {
        Some(Verb::Help)
    } else if w.len() == 1 && w[0] == '?' {
        Some(Verb::Help)
    } else if w.len() == 4 && w[0] == 'e' && w[1] == 'x' && w[2] == 'i' && w[3] == 't' {
        Some(Verb::Exit)
    } else if w.len() == 4 && w[0] == 'q' && w[1] == 'u' && w[2] == 'i' && w[3] == 't' {
        Some(Verb::Exit)
    } else {
        None
    }
}

pub open spec fn with_count(v: Verb, n: usize) -> Command {
    match v {
        Verb::Top => Command::Top(n),
        Verb::New => Command::New(n),
        Verb::Show => Command::Show(n),
        Verb::Ask => Command::Ask(n),
        Verb::Jobs => Command::Jobs(n),
        Verb::Help => Command::Help,
        Verb::Exit => Command::Exit,
    }
}

/// The meaning of a line: `verb [blanks argument]`, the verb being the first
/// run of non-whitespace characters, which must start the line. Text after
/// the argument, or after a verb that takes none, is ignored.
pub open spec fn parse_spec(s: Seq<char>) -> Result<Command, ErrorKind> {
    let n = word_end(s, 0);
    if n == 0 {
        Err(ErrorKind::UnknownVerb)
    } else {
        match verb_of(s.subrange(0, n)) {
            None => Err(ErrorKind::UnknownVerb),
            Some(Verb::Help) => Ok(Command::Help),
            Some(Verb::Exit) => Ok(Command::Exit),
            Some(v) => {
                let a = blank_end(s, n);
                let m = word_end(s, a);
                if m == a {
                    Err(ErrorKind::MissingArgument)
                } else {
                    match count_of(s.subrange(a, m)) {
                        None => Err(ErrorKind::InvalidArgument),
                        Some(k) => Ok(with_count(v, k)),
                    }
                }
            },
        }
    }
}

/// Tells whether `c` is not whitespace in the sense of `char::is_whitespace`.
pub fn is_not_whitespace(c: char) -> (r: bool)
    ensures
        r == !is_ws_char(c),
{
    let u = c as u32;
    !((0x09 <= u && u <= 0x0d) || u == 0x20 || u == 0x85 || u == 0xa0 || u == 0x1680 || (0x2000
        <= u && u <= 0x200a) || u == 0x2028 || u == 0x2029 || u == 0x202f || u == 0x205f || u
        == 0x3000)
}

proof fn lemma_word_end_bounds(s: Seq<char>, i: int)
    requires
        0 <= i <= s.len(),
    ensures
        i <= word_end(s, i) <= s.len(),
    decreases s.len() - i,
{
    if i < s.len() && !is_ws_char(s[i]) {
        lemma_word_end_bounds(s, i + 1);
    }
}

proof fn lemma_blank_end_bounds(s: Seq<char>, i: int)
    requires
        0 <= i <= s.len(),
    ensures
        i <= blank_end(s, i) <= s.len(),
    decreases s.len() - i,
{
    if i < s.len() && is_blank(s[i]) {
        lemma_blank_end_bounds(s, i + 1);
    }
}

/// Index just past the word that starts at `start`.
fn find_word_end(v: &Vec<char>, start: usize) -> (e: usize)
    requires
        start <= v.len(),
    ensures
        e == word_end(v@, start as int),
        start <= e <= v.len(),
{
    let mut j = start;
    while j < v.len() && is_not_whitespace(v[j])
        invariant
            start <= j <= v.len(),
            word_end(v@, j as int) == word_end(v@, start as int),
        decreases v.len() - j,
    {
        j = j + 1;
    }
    j
}

/// Index just past the blanks that start at `start`.
fn find_blank_end(v: &Vec<char>, start: usize) -> (e: usize)
    requires
        start <= v.len(),
    ensures
        e == blank_end(v@, start as int),
        start <= e <= v.len(),
{
    let mut j = start;
    while j < v.len() && (v[j] == ' ' || v[j] == '\t')
        invariant
            start <= j <= v.len(),
            blank_end(v@, j as int) == blank_end(v@, start as int),
        decreases v.len() - j,
    {
        j = j + 1;
    }
    j
}

proof fn lemma_digits_prefix(t: Seq<char>, k: int)
    requires
        0 <= k <= t.len(),
    ensures
        digits_value(t.subrange(0, k)) <= digits_value(t),
    decreases t.len(),
{
    if k < t.len() {
        assert(t.drop_last().subrange(0, k) =~= t.subrange(0, k));
        lemma_digits_prefix(t.drop_last(), k);
    } else {
        assert(t.subrange(0, k) =~= t);
    }
}

/// Reads the count written by `v[lo..hi]`.
fn read_count(v: &Vec<char>, lo: usize, hi: usize) -> (r: Option<usize>)
    requires
        lo <= hi <= v.len(),
    ensures
        r == count_of(v@.subrange(lo as int, hi as int)),
{
    let ghost t = v@.subrange(lo as int, hi as int);
    let mut p = lo;
    if p < hi && v[p] == '+' {
        p = p + 1;
    }
    let ghost d = v@.subrange(p as int, hi as int);
    assert(d =~= (if t.len() > 0 && t[0] == '+' {
        t.drop_first()
    } else {
        t
    }));
    if p == hi {
        return None;
    }
    let mut val: usize = 0;
    let mut j = p;
    while j < hi
        invariant
            lo <= p <= j <= hi <= v.len(),
            d == v@.subrange(p as int, hi as int),
            t == v@.subrange(lo as int, hi as int),
            d == (if t.len() > 0 && t[0] == '+' {
                t.drop_first()
            } else {
                t
            }),
            all_digits(v@.subrange(p as int, j as int)),
            val == digits_value(v@.subrange(p as int, j as int)),
        decreases hi - j,
    {
        let c = v[j];
        if !('0' <= c && c <= '9') {
            assert(d[j - p] == c);
            assert(!is_digit(d[j - p]));
            return None;
        }
        let dig = (c as u32 - '0' as u32) as usize;
        let ghost pre = v@.subrange(p as int, (j + 1) as int);
        assert(pre.drop_last() =~= v@.subrange(p as int, j as int));
        if val > (usize::MAX - dig) / 10 {
            proof {
                assert(digits_value(pre) > usize::MAX) by (nonlinear_arith)
                    requires
                        digits_value(pre) == val * 10 + dig,
                        val > (usize::MAX - dig) / 10,
                        dig <= 9,
                ;
                assert(pre =~= d.subrange(0, (j + 1 - p) as int));
                lemma_digits_prefix(d, (j + 1 - p) as int);
            }
            return None;
        }
        assert(val * 10 + dig <= usize::MAX) by (nonlinear_arith)
            requires
                val <= (usize::MAX - dig) / 10,
                dig <= 9,
        ;
        val = val * 10 + dig;
        j = j + 1;
    }
    Some(val)
}

/// The verb spelled by `v[lo..hi]`, if any.
fn classify(v: &Vec<char>, lo: usize, hi: usize) -> (r: Option<Verb>)
    requires
        lo <= hi <= v.len(),
    ensures
        r == verb_of(v@.subrange(lo as int, hi as int)),
{
    let ghost w = v@.subrange(lo as int, hi as int);
    let n = hi - lo;
    assert(forall|i: int| 0 <= i < n ==> w[i] == v@[lo + i]);
    if n == 3 && v[lo] == 't' && v[lo + 1] == 'o' && v[lo + 2] == 'p' {
        Some(Verb::Top)
    } else if n == 3 && v[lo] == 'n' && v[lo + 1] == 'e' && v[lo + 2] == 'w' {
        Some(Verb::New)
    } else if n == 4 && v[lo] == 's' && v[lo + 1] == 'h' && v[lo + 2] == 'o' && v[lo + 3] == 'w' {
        Some(Verb::Show)
    } else if n == 3 && v[lo] == 'a' && v[lo + 1] == 's' && v[lo + 2] == 'k' {
        Some(Verb::Ask)
    } else if n == 4 && v[lo] == 'j' && v[lo + 1] == 'o' && v[lo + 2] == 'b' && v[lo + 3] == 's' {
        Some(Verb::Jobs)
    } else if n == 4 && v[lo] == 'h' && v[lo + 1] == 'e' && v[lo + 2] == 'l' && v[lo + 3] == 'p' {
        Some(Verb::Help)
    } else if n == 1 && v[lo] == '?' {
        Some(Verb::Help)
    } else if n == 4 && v[lo] == 'e' && v[lo + 1] == 'x' && v[lo + 2] == 'i' && v[lo + 3] == 't' {
        Some(Verb::Exit)
    } else if n == 4 && v[lo] == 'q' && v[lo + 1] == 'u' && v[lo + 2] == 'i' && v[lo + 3] == 't' {
        Some(Verb::Exit)
    } else {
        None
    }
}

/// The characters of `s`, in order.
fn chars_of(s: &str) -> (v: Vec<char>)
    ensures
        v@ == s@,
{
    let mut v: Vec<char> = Vec::new();
    for c in it: s.chars()
        invariant
            v@ == it.seq().take(it.index() as int),
    {
        v.push(c);
    }
    v
}

impl Command {
    /// Parses one line of user input, given as its characters.
    pub fn from_chars(v: &Vec<char>) -> (r: Result<Command, ErrorKind>)
        ensures
            r == parse_spec(v@),
    {
        let n = find_word_end(v, 0);
        if n == 0 {
            return Err(ErrorKind::UnknownVerb);
        }
        let verb = match classify(v, 0, n) {
            None => {
                return Err(ErrorKind::UnknownVerb);
            },
            Some(Verb::Help) => {
                return Ok(Command::Help);
            },
            Some(Verb::Exit) => {
                return Ok(Command::Exit);
            },
            Some(verb) => verb,
        };
        let a = find_blank_end(v, n);
        let m = find_word_end(v, a);
        if m == a {
            return Err(ErrorKind::MissingArgument);
        }
        match read_count(v, a, m) {
            None => Err(ErrorKind::InvalidArgument),
            Some(k) => Ok(
                match verb {
                    Verb::Top => Command::Top(k),
                    Verb::New => Command::New(k),
                    Verb::Show => Command::Show(k),
                    Verb::Ask => Command::Ask(k),
                    _ => Command::Jobs(k),
                },
            ),
        }
    }

    /// The list and the count that the command asks to show, if it asks
    /// for one.
    pub fn listing(&self) -> (r: Option<(Category, usize)>)
        ensures
            r == match *self {
                Command::Top(n) => Some((Category::Top, n)),
                Command::New(n) => Some((Category::New, n)),
                Command::Show(n) => Some((Category::Show, n)),
                Command::Ask(n) => Some((Category::Ask, n)),
                Command::Jobs(n) => Some((Category::Jobs, n)),
                Command::Help | Command::Exit => None,
            },
    {
        match *self {
            Command::Top(n) => Some((Category::Top, n)),
            Command::New(n) => Some((Category::New, n)),
            Command::Show(n) => Some((Category::Show, n)),
            Command::Ask(n) => Some((Category::Ask, n)),
            Command::Jobs(n) => Some((Category::Jobs, n)),
            Command::Help | Command::Exit => None,
        }
    }

    /// Parses one line of user input.
    pub fn parse(input: &str) -> (r: Result<Command, CommandError>)
        ensures
            match r {
                Ok(c) => parse_spec(input@) == Ok::<Command, ErrorKind>(c),
                Err(e) => parse_spec(input@) == Err::<Command, ErrorKind>(e.kind) && e.input@
                    == input@,
            },
    {
        let v = chars_of(input);
        match Command::from_chars(&v) {
            Ok(c) => Ok(c),
            Err(k) => Err(CommandError { kind: k, input: input.to_owned() }),
        }
    }
}

} // verus!
