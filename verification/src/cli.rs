//! The command line's shared flags, and the one question about it that has
//! to be answered before it is parsed.

use std::path::PathBuf;
use vstd::prelude::*;

use crate::batch::Destination;
use crate::text::{has_at, str_eq};

verus! {

/// Flags every verb accepts.
#[derive(Debug)]
pub struct GlobalArgs {
    /// Write one JSON envelope on stdout instead of human-readable text.
    pub json: bool,
    /// Suppress progress diagnostics. Affects stderr only; errors still print.
    pub quiet: bool,
    /// Write extra diagnostics. Affects stderr only.
    pub verbose: bool,
}

/// Where a writing verb's result lands: the two flags every one of them
/// takes.
#[derive(Debug)]
pub struct Landing {
    /// Write the result here instead, leaving the package untouched.
    pub out: Option<PathBuf>,
    /// Do everything but put the result anywhere, and report what would
    /// have changed.
    pub dry_run: bool,
}

/// `Option<PathBuf>::clone`.
#[verifier::external_body]
fn clone_out(out: &Option<PathBuf>) -> (copy: Option<PathBuf>)
    ensures
        copy == *out,
{
    out.clone()
}

impl Landing {
    /// Where the result goes: the path `--out` names, or the package itself.
    pub fn destination(&self) -> (destination: Destination)
        ensures
            match self.out {
                None => destination == Destination::InPlace,
                Some(p) => destination == Destination::Out(p),
            },
    {
        Destination::from_out(clone_out(&self.out))
    }
}

/// What a writing verb may do to a formula in the cell it was pointed at.
#[derive(Debug)]
pub struct Formulas {
    /// Replace a formula in the target cell, dropping it and taking its calc
    /// chain entry with it.
    pub replace_formula: bool,
}

/// Whether one argument asks for `--json`: the flag itself, or the flag with
/// a value attached, which is how a long flag is lexed even when its value is
/// then refused.
pub open spec fn asks_for_json(arg: Seq<char>) -> bool {
    arg == "--json"@ || (arg.len() >= 7 && arg.subrange(0, 7) == "--json="@)
}

/// Where the flags of `argv` end: the first `--` after the program's name, or
/// the end.
pub open spec fn flags_end(argv: Seq<Seq<char>>, k: int) -> int
    decreases argv.len() - k,
{
    if k >= argv.len() {
        argv.len() as int
    } else if argv[k] == "--"@ {
        k
    } else {
        flags_end(argv, k + 1)
    }
}

/// Whether `argv` asked for JSON, judged from the raw arguments: some flag
/// after the program's name and before any `--` asks for it.
pub open spec fn json_asked(argv: Seq<Seq<char>>) -> bool {
    exists|k: int| 1 <= k < flags_end(argv, 1) && asks_for_json(#[trigger] argv[k])
}

proof fn lemma_flags_end(argv: Seq<Seq<char>>, k: int)
    requires
        0 <= k,
    ensures
        k <= flags_end(argv, k) <= argv.len() || (k > argv.len() && flags_end(argv, k) == argv.len()),
        forall|j: int| k <= j < flags_end(argv, k) ==> argv[j] != "--"@,
        flags_end(argv, k) < argv.len() ==> argv[flags_end(argv, k)] == "--"@,
    decreases argv.len() - k,
{
    if k < argv.len() && argv[k] != "--"@ {
        lemma_flags_end(argv, k + 1);
    }
}

/// Whether the raw arguments asked for JSON, for the paths that must answer
/// before, or without, a successful parse: a usage error and a panic both
/// have to be told whether to answer in an envelope. Everything after `--`
/// is an operand, not a flag, so the scan stops there.
pub fn json_requested(argv: &[String]) -> (asked: bool)
    ensures
        asked == json_asked(argv@.map_values(|a: String| a@)),
{
    let ghost args = argv@.map_values(|a: String| a@);
    proof {
        lemma_flags_end(args, 1);
    }
    let flag: Vec<char> = vec!['-', '-', 'j', 's', 'o', 'n', '='];
    proof {
        reveal_strlit("--json=");
        assert(flag@ =~= "--json="@);
    }
    let mut k: usize = 1;
    while k < argv.len()
        invariant
            args == argv@.map_values(|a: String| a@),
            flag@ == "--json="@,
            flag@.len() == 7,
            1 <= k,
            k <= flags_end(args, 1) || argv@.len() < 1,
            flags_end(args, 1) == flags_end(args, k as int) || argv@.len() < 1,
            forall|j: int| 1 <= j < k ==> !asks_for_json(#[trigger] args[j]),
        decreases argv@.len() - k,
    {
        let arg = argv[k].as_str();
        assert(args[k as int] == arg@);
        if str_eq(arg, "--") {
            return false;
        }
        proof {
            lemma_flags_end(args, k as int);
        }
        if str_eq(arg, "--json") {
            return true;
        }
        let chars = crate::text::chars_of(arg);
        if chars.len() >= 7 && has_at(&chars, 0, &flag) {
            assert(arg@.subrange(0, 7) =~= "--json="@);
            return true;
        }
        k = k + 1;
    }
    false
}

} // verus!
