//! Scanning the command line: two optional flags, each consuming the next
//! argument; unknown arguments are ignored.

use vstd::prelude::*;
use crate::text::str_eq;
use crate::tokens::views_of;

verus! {

/// The scan's state machine: `fs` (`fd`) records that the previous argument
/// was `-sock` (`-dir`), so the current one is its value; the last value
/// for each flag wins.
pub open spec fn args_scan(
    args: Seq<Seq<char>>,
    sock: Seq<char>,
    dir: Seq<char>,
    fs: bool,
    fd: bool,
) -> (Seq<char>, Seq<char>)
    decreases args.len(),
{
    if args.len() == 0 {
        (sock, dir)
    } else {
        let a = args[0];
        let rest = args.drop_first();
        if fs {
            args_scan(rest, a, dir, false, fd)
        } else if fd {
            args_scan(rest, sock, a, fs, false)
        } else if a == "-sock"@ {
            args_scan(rest, sock, dir, true, fd)
        } else if a == "-dir"@ {
            args_scan(rest, sock, dir, fs, true)
        } else {
            args_scan(rest, sock, dir, fs, fd)
        }
    }
}

/// The socket path and data directory a command line selects; both default
/// to the empty string.
pub open spec fn spec_parse_args(args: Seq<Seq<char>>) -> (Seq<char>, Seq<char>) {
    args_scan(args, Seq::empty(), Seq::empty(), false, false)
}

/// Scan the arguments for `-sock PATH` and `-dir PATH`.
pub fn parse_args(args: &Vec<String>) -> (r: (String, String))
    ensures
        (r.0@, r.1@) == spec_parse_args(views_of(args@)),
{
    let ghost av = views_of(args@);
    let mut sock = String::new();
    let mut dir = String::new();
    let mut fs: bool = false;
    let mut fd: bool = false;
    let n: usize = args.len();
    let mut i: usize = 0;
    proof {
        assert(av.skip(0) =~= av);
    }
    while i < n
        invariant
            i <= n,
            n == args@.len(),
            av == views_of(args@),
            args_scan(av.skip(i as int), sock@, dir@, fs, fd) == spec_parse_args(av),
        decreases n - i,
    {
        proof {
            assert(av.skip(i as int)[0] == args@[i as int]@);
            assert(av.skip(i as int).drop_first() =~= av.skip(i + 1));
        }
        let a: &String = &args[i];
        if fs {
            sock = a.clone();
            fs = false;
        } else if fd {
            dir = a.clone();
            fd = false;
        } else if str_eq(a.as_str(), "-sock") {
            fs = true;
        } else if str_eq(a.as_str(), "-dir") {
            fd = true;
        }
        i += 1;
    }
    proof {
        assert(av.skip(n as int) =~= Seq::<Seq<char>>::empty());
    }
    (sock, dir)
}

} // verus!
