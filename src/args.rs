//! Splitting a command line into its arguments.
//!
//! Arguments are separated by spaces; runs of spaces count as one separator.
//! An argument that starts with `"` runs to the next `"` and may hold spaces;
//! there is no other escape. A quote that is never closed makes the whole
//! line invalid rather than silently dropping what follows it.

use vstd::prelude::*;
use crate::paths::{chars_of, text_of};

verus! {

/// Where the scan of a command line stands.
pub enum Scan {
    /// Between two arguments.
    Between,
    /// Inside an unquoted argument that starts at the given index.
    Plain(int),
    /// Inside a quoted argument whose text starts at the given index.
    Quoted(int),
}

/// Puts `t` in front of the arguments `rest`, if there are any.
pub open spec fn prepend(t: Seq<char>, rest: Option<Seq<Seq<char>>>) -> Option<Seq<Seq<char>>> {
    match rest {
        Some(a) => Some(seq![t] + a),
        None => None,
    }
}

/// The arguments of `s` from index `i` on, the scan standing at `state`;
/// `None` when a quote is left open.
pub open spec fn scan_args(s: Seq<char>, i: int, state: Scan) -> Option<Seq<Seq<char>>>
    decreases s.len() - i,
{
    if i >= s.len() {
        match state {
            Scan::Between => Some(Seq::empty()),
            Scan::Plain(st) => Some(seq![s.subrange(st, s.len() as int)]),
            Scan::Quoted(_) => None,
        }
    } else {
        let c = s[i];
        match state {
            Scan::Between => if c == ' ' {
                scan_args(s, i + 1, Scan::Between)
            } else if c == '"' {
                scan_args(s, i + 1, Scan::Quoted(i + 1))
            } else {
                scan_args(s, i + 1, Scan::Plain(i))
            },
            Scan::Plain(st) => if c == ' ' {
                prepend(s.subrange(st, i), scan_args(s, i + 1, Scan::Between))
            } else {
                scan_args(s, i + 1, Scan::Plain(st))
            },
            Scan::Quoted(st) => if c == '"' {
                prepend(s.subrange(st, i), scan_args(s, i + 1, Scan::Between))
            } else {
                scan_args(s, i + 1, Scan::Quoted(st))
            },
        }
    }
}

/// The arguments of the command line `s`, or `None` when a quote is left open.
pub open spec fn args_of(s: Seq<char>) -> Option<Seq<Seq<char>>> {
    scan_args(s, 0, Scan::Between)
}

/// The texts of a list of strings.
pub open spec fn texts(v: Seq<String>) -> Seq<Seq<char>> {
    v.map_values(|t: String| t@)
}

/// `ts` followed by the arguments `rest`, if there are any.
pub open spec fn after(ts: Seq<Seq<char>>, rest: Option<Seq<Seq<char>>>) -> Option<Seq<Seq<char>>> {
    match rest {
        Some(a) => Some(ts + a),
        None => None,
    }
}

/// A command line could not be split.
#[derive(Debug, Clone, Copy, PartialEq, Eq)]
pub enum ArgError {
    /// A quoted argument is never closed.
    UnclosedQuote,
}

proof fn lemma_after_prepend(ts: Seq<Seq<char>>, t: Seq<char>, rest: Option<Seq<Seq<char>>>)
    ensures
        after(ts, prepend(t, rest)) == after(ts.push(t), rest),
{
    if let Some(a) = rest {
        assert(ts + (seq![t] + a) =~= ts.push(t) + a);
    }
}

/// Splits a command line into its arguments.
pub fn argenize(argstr: &str) -> (r: Result<Vec<String>, ArgError>)
    ensures
        match args_of(argstr@) {
            Some(a) => r matches Ok(v) && texts(v@) == a,
            None => r == Err::<Vec<String>, ArgError>(ArgError::UnclosedQuote),
        },
{
    let chars = chars_of(argstr);
    let n = chars.len();
    let mut out: Vec<String> = Vec::new();
    // 0: between arguments, 1: in a plain argument, 2: in a quoted one
    let mut mode: u8 = 0;
    let mut start: usize = 0;
    let mut i: usize = 0;
    let ghost s = argstr@;
    while i < n
        invariant
            n == s.len(),
            s == argstr@,
            chars@ == s,
            i <= n,
            mode <= 2,
            start <= i,
            args_of(s) == after(
                texts(out@),
                scan_args(
                    s,
                    i as int,
                    if mode == 0 {
                        Scan::Between
                    } else if mode == 1 {
                        Scan::Plain(start as int)
                    } else {
                        Scan::Quoted(start as int)
                    },
                ),
            ),
        decreases n - i,
    {
        let c = chars[i];
        if mode == 0 {
            if c == '"' {
                mode = 2;
                start = i + 1;
            } else if c != ' ' {
                mode = 1;
                start = i;
            }
        } else if (mode == 1 && c == ' ') || (mode == 2 && c == '"') {
            let ghost st = if mode == 1 { Scan::Plain(start as int) } else { Scan::Quoted(start as int) };
            let t = text_of(&chars, start, i);
            proof {
                lemma_after_prepend(texts(out@), t@, scan_args(s, i + 1, Scan::Between));
            }
            let ghost before = out@;
            out.push(t);
            assert(texts(out@) =~= texts(before).push(t@));
            mode = 0;
        }
        i = i + 1;
    }
    if mode == 2 {
        Err(ArgError::UnclosedQuote)
    } else {
        if mode == 1 {
            let t = text_of(&chars, start, n);
            proof {
                lemma_after_prepend(texts(out@), t@, Some(Seq::empty()));
            }
            let ghost before = out@;
            out.push(t);
            assert(texts(out@) =~= texts(before).push(t@));
        }
        assert(texts(out@) =~= texts(out@) + Seq::<Seq<char>>::empty());
        Ok(out)
    }
}

} // verus!
