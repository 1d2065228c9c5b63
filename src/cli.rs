use vstd::prelude::*;
use vstd::string::StringExecFns;
use crate::url_list::views;

verus! {

/// Timeout per request when none is given, in seconds.
pub const DEFAULT_TIMEOUT_SECS: u64 = 5;

/// Retries when none are given.
pub const DEFAULT_RETRIES: u32 = 0;

/// An option that takes a value.
#[derive(Clone, Copy, Debug, PartialEq, Eq, Structural)]
pub enum Flag {
    File,
    Workers,
    Timeout,
    Retries,
}

/// Why the command line was refused.
#[derive(Clone, Copy, Debug, PartialEq, Eq, Structural)]
pub enum ArgError {
    /// Nothing was given at all.
    NoArguments,
    /// The option came last, without its value.
    MissingValue(Flag),
    /// The option's value is not a number of the right size.
    InvalidNumber(Flag),
}

/// What the command line asks for.
#[derive(Clone, Debug, PartialEq, Eq)]
pub struct CliArgs {
    /// A file that lists more URLs, one per line.
    pub file: Option<String>,
    /// The URLs given directly, in order.
    pub urls: Vec<String>,
    pub workers: usize,
    pub timeout_secs: u64,
    pub retries: u32,
}

/// The value of a run of decimal digits.
pub open spec fn digits_value(s: Seq<char>) -> nat
    decreases s.len(),
{
    if s.len() == 0 {
        0
    } else {
        digits_value(s.drop_last()) * 10 + (s.last() as nat - '0' as nat) as nat
    }
}

pub open spec fn is_digits(s: Seq<char>) -> bool {
    s.len() > 0 && forall|i: int| 0 <= i < s.len() ==> '0' <= #[trigger] s[i] <= '9'
}

/// The number that a text denotes: an optional `+` and then decimal digits.
pub open spec fn decimal_of(s: Seq<char>) -> Option<nat> {
    let d = if s.len() > 0 && s[0] == '+' {
        s.subrange(1, s.len() as int)
    } else {
        s
    };
    if is_digits(d) {
        Some(digits_value(d))
    } else {
        None
    }
}

/// Relies on `<u64 as FromStr>::from_str`: an optional `+` followed by
/// decimal digits, whose value fits, gives that value; anything else is an error.
#[verifier::external_body]
fn parse_u64(s: &str) -> (r: Option<u64>)
    ensures
        r == (match decimal_of(s@) {
            Some(v) => if v <= u64::MAX {
                Some(v as u64)
            } else {
                None::<u64>
            },
            None => None,
        }),
{
    s.parse::<u64>().ok()
}

pub open spec fn flag_of(a: Seq<char>) -> Option<Flag> {
    if a == "--file"@ {
        Some(Flag::File)
    } else if a == "--workers"@ {
        Some(Flag::Workers)
    } else if a == "--timeout"@ {
        Some(Flag::Timeout)
    } else if a == "--retries"@ {
        Some(Flag::Retries)
    } else {
        None
    }
}

/// The command line as read so far: file, URLs, workers, timeout, retries.
pub type CliState = (Option<Seq<char>>, Seq<Seq<char>>, usize, u64, u32);

/// Reads `args` from position `i` on: an option takes the argument after it
/// as its value (the last one given wins), every other argument is a URL.
pub open spec fn parse_from(args: Seq<Seq<char>>, i: nat, s: CliState) -> Result<
    CliState,
    ArgError,
>
    decreases args.len() - i,
{
    if i >= args.len() {
        Ok(s)
    } else {
        match flag_of(args[i as int]) {
            None => parse_from(args, i + 1, (s.0, s.1.push(args[i as int]), s.2, s.3, s.4)),
            Some(f) => if i + 1 >= args.len() {
                Err(ArgError::MissingValue(f))
            } else {
                let v = args[i + 1 as int];
                match f {
                    Flag::File => parse_from(args, i + 2, (Some(v), s.1, s.2, s.3, s.4)),
                    Flag::Workers => match decimal_of(v) {
                        Some(n) => if n <= usize::MAX {
                            parse_from(args, i + 2, (s.0, s.1, n as usize, s.3, s.4))
                        } else {
                            Err(ArgError::InvalidNumber(f))
                        },
                        None => Err(ArgError::InvalidNumber(f)),
                    },
                    Flag::Timeout => match decimal_of(v) {
                        Some(n) => if n <= u64::MAX {
                            parse_from(args, i + 2, (s.0, s.1, s.2, n as u64, s.4))
                        } else {
                            Err(ArgError::InvalidNumber(f))
                        },
                        None => Err(ArgError::InvalidNumber(f)),
                    },
                    Flag::Retries => match decimal_of(v) {
                        Some(n) => if n <= u32::MAX {
                            parse_from(args, i + 2, (s.0, s.1, s.2, s.3, n as u32))
                        } else {
                            Err(ArgError::InvalidNumber(f))
                        },
                        None => Err(ArgError::InvalidNumber(f)),
                    },
                }
            },
        }
    }
}

impl CliArgs {
    pub open spec fn view_state(self) -> CliState {
        (
            match self.file {
                Some(f) => Some(f@),
                None => None,
            },
            views(self.urls@),
            self.workers,
            self.timeout_secs,
            self.retries,
        )
    }
}

fn flag_text(a: &String) -> (r: Option<Flag>)
    ensures
        r == flag_of(a@),
{
    proof {
        reveal_strlit("--file");
        reveal_strlit("--workers");
        reveal_strlit("--timeout");
        reveal_strlit("--retries");
    }
    if *a == String::from_str("--file") {
        Some(Flag::File)
    } else if *a == String::from_str("--workers") {
        Some(Flag::Workers)
    } else if *a == String::from_str("--timeout") {
        Some(Flag::Timeout)
    } else if *a == String::from_str("--retries") {
        Some(Flag::Retries)
    } else {
        None
    }
}

/// Reads the arguments that follow the program name. With none at all the
/// result is `NoArguments`; otherwise it is what `parse_from` gives from the
/// defaults: no file, no URLs, `default_workers` workers, the default
/// timeout and retries.
pub fn parse_args(args: &Vec<String>, default_workers: usize) -> (r: Result<CliArgs, ArgError>)
    ensures
        args@.len() == 0 ==> r == Err::<CliArgs, ArgError>(ArgError::NoArguments),
        args@.len() > 0 ==> match parse_from(
            views(args@),
            0,
            (None, Seq::empty(), default_workers, DEFAULT_TIMEOUT_SECS, DEFAULT_RETRIES),
        ) {
            Ok(s) => r is Ok && r->Ok_0.view_state() == s,
            Err(e) => r == Err::<CliArgs, ArgError>(e),
        },
{
    if args.len() == 0 {
        return Err(ArgError::NoArguments);
    }
    let ghost va = views(args@);
    let mut out = CliArgs {
        file: None,
        urls: Vec::new(),
        workers: default_workers,
        timeout_secs: DEFAULT_TIMEOUT_SECS,
        retries: DEFAULT_RETRIES,
    };
    assert(out.view_state() =~= (
        None,
        Seq::empty(),
        default_workers,
        DEFAULT_TIMEOUT_SECS,
        DEFAULT_RETRIES,
    ));
    let mut i: usize = 0;
    while i < args.len()
        invariant
            i <= args.len(),
            va == views(args@),
            parse_from(va, i as nat, out.view_state()) == parse_from(
                va,
                0,
                (None, Seq::empty(), default_workers, DEFAULT_TIMEOUT_SECS, DEFAULT_RETRIES),
            ),
        decreases args.len() - i,
    {
        let ghost s0 = out.view_state();
        assert(va[i as int] == args@[i as int]@);
        match flag_text(&args[i]) {
            None => {
                out.urls.push(args[i].clone());
                assert(out.view_state() =~= (s0.0, s0.1.push(va[i as int]), s0.2, s0.3, s0.4));
                i = i + 1;
            },
            Some(f) => {
                if i + 1 >= args.len() {
                    return Err(ArgError::MissingValue(f));
                }
                let v = &args[i + 1];
                assert(va[i + 1] == v@);
                match f {
                    Flag::File => {
                        out.file = Some(v.clone());
                    },
                    Flag::Workers => match parse_u64(v.as_str()) {
                        Some(n) => {
                            if n > usize::MAX as u64 {
                                return Err(ArgError::InvalidNumber(f));
                            }
                            out.workers = n as usize;
                        },
                        None => {
                            return Err(ArgError::InvalidNumber(f));
                        },
                    },
                    Flag::Timeout => match parse_u64(v.as_str()) {
                        Some(n) => {
                            out.timeout_secs = n;
                        },
                        None => {
                            return Err(ArgError::InvalidNumber(f));
                        },
                    },
                    Flag::Retries => match parse_u64(v.as_str()) {
                        Some(n) => {
                            if n > u32::MAX as u64 {
                                return Err(ArgError::InvalidNumber(f));
                            }
                            out.retries = n as u32;
                        },
                        None => {
                            return Err(ArgError::InvalidNumber(f));
                        },
                    },
                }
                i = i + 2;
            },
        }
    }
    Ok(out)
}

} // verus!
