use vstd::prelude::*;

verus! {

/// Workers in pool mode when `-p` is not given.
pub const DEFAULT_POOL_SIZE: u32 = 5;

/// How accepted connections are dispatched.
#[derive(Clone, Copy, Debug, PartialEq, Eq, Structural)]
pub enum Mode {
    /// A new thread for each connection.
    ThreadPerRequest,
    /// A fixed pool of this many worker threads.
    ThreadPool(u32),
    /// Cooperatively scheduled tasks.
    Async,
}

/// What the command line asks for.
#[derive(Clone, Copy, Debug, PartialEq, Eq, Structural)]
pub enum Command {
    /// Print the usage text and exit successfully.
    Help,
    /// Run the server in this mode.
    Serve(Mode),
}

/// Why a command line was refused.
#[derive(Debug, PartialEq, Eq)]
pub enum ArgError {
    /// `-p` was the last argument.
    MissingPoolSize,
    /// The argument after `-p` is not a positive integer that fits in `u32`.
    InvalidPoolSize(String),
    /// An argument that is not a known flag.
    UnknownArgument(String),
}

/// The variant of an `ArgError`, without its text.
#[derive(Clone, Copy, Debug, PartialEq, Eq, Structural)]
pub enum ArgErrorKind {
    MissingPoolSize,
    InvalidPoolSize,
    UnknownArgument,
}

impl ArgError {
    /// The exit status of a process that stops on this error.
    pub fn exit_code(&self) -> (c: i32)
        ensures
            c == 1,
    {
        1
    }
}

/// `e` is an error of kind `k` about the argument `arg`.
pub open spec fn error_is(e: ArgError, k: ArgErrorKind, arg: Seq<char>) -> bool {
    match k {
        ArgErrorKind::MissingPoolSize => e is MissingPoolSize,
        ArgErrorKind::InvalidPoolSize => e is InvalidPoolSize && e->InvalidPoolSize_0@ == arg,
        ArgErrorKind::UnknownArgument => e is UnknownArgument && e->UnknownArgument_0@ == arg,
    }
}

pub open spec fn is_digit(c: char) -> bool {
    '0' <= c <= '9'
}

pub open spec fn digit_value(c: char) -> int {
    c as int - '0' as int
}

pub open spec fn all_digits(s: Seq<char>) -> bool {
    forall|i: int| 0 <= i < s.len() ==> is_digit(#[trigger] s[i])
}

/// The number that the decimal digits `s` write.
pub open spec fn decimal_value(s: Seq<char>) -> int
    decreases s.len(),
{
    if s.len() == 0 {
        0
    } else {
        decimal_value(s.drop_last()) * 10 + digit_value(s.last())
    }
}

/// The digits of a size: the text with one leading `+` taken off.
pub open spec fn size_digits(s: Seq<char>) -> Seq<char> {
    if s.len() > 0 && s[0] == '+' {
        s.drop_first()
    } else {
        s
    }
}

/// A pool size: an optional `+` and at least one decimal digit, whose value
/// is positive and fits in `u32`.
pub open spec fn pool_size_of(s: Seq<char>) -> Option<u32> {
    let d = size_digits(s);
    if d.len() > 0 && all_digits(d) && 0 < decimal_value(d) <= u32::MAX {
        Some(decimal_value(d) as u32)
    } else {
        None
    }
}

/// What the arguments from position `i` on ask for, given the mode chosen
/// by those before; an error carries its kind and the position it is about.
pub open spec fn parse_from(args: Seq<Seq<char>>, i: int, mode: Mode) -> Result<
    Command,
    (ArgErrorKind, int),
>
    decreases args.len() - i,
{
    if i < 0 || i >= args.len() {
        Ok(Command::Serve(mode))
    } else if args[i] == seq!['-', 'h'] {
        Ok(Command::Help)
    } else if args[i] == seq!['-', 't'] {
        parse_from(args, i + 1, Mode::ThreadPerRequest)
    } else if args[i] == seq!['-', 'p'] {
        if i + 1 >= args.len() {
            Err((ArgErrorKind::MissingPoolSize, i))
        } else {
            match pool_size_of(args[i + 1]) {
                Some(n) => parse_from(args, i + 2, Mode::ThreadPool(n)),
                None => Err((ArgErrorKind::InvalidPoolSize, i + 1)),
            }
        }
    } else {
        Err((ArgErrorKind::UnknownArgument, i))
    }
}

/// The views of a list of arguments.
pub open spec fn arg_views(args: Seq<String>) -> Seq<Seq<char>> {
    args.map_values(|a: String| a@)
}

proof fn lemma_value_nonneg(s: Seq<char>)
    requires
        all_digits(s),
    ensures
        decimal_value(s) >= 0,
    decreases s.len(),
{
    if s.len() > 0 {
        lemma_value_nonneg(s.drop_last());
        assert(is_digit(s[s.len() - 1]));
    }
}

proof fn lemma_value_grows(s: Seq<char>)
    requires
        all_digits(s),
        s.len() > 0,
    ensures
        decimal_value(s) >= decimal_value(s.drop_last()),
{
    lemma_value_nonneg(s.drop_last());
    assert(is_digit(s[s.len() - 1]));
    let v = decimal_value(s.drop_last());
    assert(v * 10 >= v) by (nonlinear_arith)
        requires
            v >= 0,
    ;
}

/// Reads a pool size: an optional `+` and decimal digits, whose value is
/// positive and at most `u32::MAX`.
pub fn parse_pool_size(s: &str) -> (r: Option<u32>)
    ensures
        r == pool_size_of(s@),
{
    let len = s.unicode_len();
    let mut i: usize = 0;
    if len > 0 && s.get_char(0) == '+' {
        i = 1;
    }
    let start = i;
    let ghost d = size_digits(s@);
    assert(d =~= s@.subrange(start as int, len as int));
    if start == len {
        return None;
    }
    let mut acc: u64 = 0;
    let mut too_big = false;
    while i < len
        invariant
            start <= i <= len,
            len == s@.len(),
            d == s@.subrange(start as int, len as int),
            d == size_digits(s@),
            all_digits(s@.subrange(start as int, i as int)),
            !too_big ==> acc == decimal_value(s@.subrange(start as int, i as int)) && acc <= u32::MAX,
            too_big ==> decimal_value(s@.subrange(start as int, i as int)) > u32::MAX,
        decreases len - i,
    {
        let c = s.get_char(i);
        let ghost pre = s@.subrange(start as int, i as int);
        let ghost next = s@.subrange(start as int, i + 1);
        assert(next.drop_last() =~= pre);
        if !('0' <= c && c <= '9') {
            assert(d[i - start] == s@[i as int]);
            assert(!is_digit(d[i - start]));

            return None;
        }
        proof {
            assert(all_digits(next)) by {
                assert forall|k: int| 0 <= k < next.len() implies is_digit(#[trigger] next[k]) by {
                    if k < pre.len() {
                        assert(next[k] == pre[k]);
                    }
                }
            }
            lemma_value_grows(next);
        }
        if !too_big {
            let v = acc * 10 + (c as u64 - '0' as u64);
            if v > u32::MAX as u64 {
                too_big = true;
            } else {
                acc = v;
            }
        }
        i = i + 1;
    }
    assert(s@.subrange(start as int, i as int) =~= d);
    if too_big || acc == 0 {
        None
    } else {
        Some(acc as u32)
    }
}

/// Whether `s` is the two-character flag `-` `c`.
fn is_flag(s: &str, c: char) -> (b: bool)
    ensures
        b == (s@ == seq!['-', c]),
{
    if s.unicode_len() != 2 {
        return false;
    }
    let b = s.get_char(0) == '-' && s.get_char(1) == c;
    if !b {
        assert(s@ != seq!['-', c]) by {
            if s@ == seq!['-', c] {
                assert(s@[0] == '-' && s@[1] == c);
            }
        }
    } else {
        assert(s@ =~= seq!['-', c]);
    }
    b
}

/// Reads the command line (without the program name) from left to right:
/// `-h` asks for help at once, `-t` chooses a thread per connection,
/// `-p SIZE` a pool of SIZE workers, and the last choice wins; with no choice
/// the mode is `Async`. The first argument that cannot be read is the error.
pub fn parse_args(args: &Vec<String>) -> (r: Result<Command, ArgError>)
    ensures
        match parse_from(arg_views(args@), 0, Mode::Async) {
            Ok(c) => r == Ok::<Command, ArgError>(c),
            Err((k, i)) => r is Err && error_is(r->Err_0, k, arg_views(args@)[i]),
        },
{
    let ghost views = arg_views(args@);
    let mut mode = Mode::Async;
    let mut i: usize = 0;
    while i < args.len()
        invariant
            i <= args@.len(),
            views == arg_views(args@),
            parse_from(views, i as int, mode) == parse_from(views, 0, Mode::Async),
        decreases args@.len() - i,
    {
        let a = args[i].as_str();
        assert(a@ == views[i as int]);
        if is_flag(a, 'h') {
            return Ok(Command::Help);
        } else if is_flag(a, 't') {
            mode = Mode::ThreadPerRequest;
            i = i + 1;
        } else if is_flag(a, 'p') {
            if i + 1 >= args.len() {
                return Err(ArgError::MissingPoolSize);
            }
            let s = args[i + 1].as_str();
            assert(s@ == views[i + 1]);
            match parse_pool_size(s) {
                Some(n) => {
                    mode = Mode::ThreadPool(n);
                    i = i + 2;
                },
                None => {
                    return Err(ArgError::InvalidPoolSize(args[i + 1].clone()));
                },
            }
        } else {
            return Err(ArgError::UnknownArgument(args[i].clone()));
        }
    }
    Ok(Command::Serve(mode))
}

} // verus!
