//! The search configuration and how it is read from trailing arguments.
use vstd::prelude::*;
use vstd::string::StringExecFns;

verus! {

/// The long spelling of the case-insensitivity flag.
pub open spec fn long_case_flag() -> Seq<char> {
    seq!['-', '-', 'i', 'g', 'n', 'o', 'r', 'e', '-', 'c', 'a', 's', 'e']
}

/// The short spelling of the case-insensitivity flag.
pub open spec fn short_case_flag() -> Seq<char> {
    seq!['-', 'i']
}

/// An argument that switches on case-insensitive matching.
pub open spec fn is_case_flag(arg: Seq<char>) -> bool {
    arg == long_case_flag() || arg == short_case_flag()
}

/// Some argument of `args` switches on case-insensitive matching.
pub open spec fn has_case_flag(args: Seq<String>) -> bool {
    exists|i: int| 0 <= i < args.len() && is_case_flag(#[trigger] args[i]@)
}

/// How the search is carried out.
#[derive(Debug, Clone, Copy, PartialEq, Eq)]
pub struct CliOptions {
    /// Match case-insensitively (ASCII only) when the verbatim search fails.
    pub ignore_case: bool,
}

/// Tells whether `arg` is one of the two spellings of the case flag.
pub fn is_case_flag_arg(arg: &String) -> (r: bool)
    ensures
        r == is_case_flag(arg@),
{
    proof {
        reveal_strlit("--ignore-case");
        reveal_strlit("-i");
    }
    let long = String::from_str("--ignore-case");
    let short = String::from_str("-i");
    assert(long@ =~= long_case_flag());
    assert(short@ =~= short_case_flag());
    *arg == long || *arg == short
}

impl CliOptions {
    /// Case-sensitive matching.
    pub fn default() -> (r: Self)
        ensures
            !r.ignore_case,
    {
        CliOptions { ignore_case: false }
    }

    /// Reads the options from `args`: case-insensitive exactly when some
    /// argument is `--ignore-case` or `-i`; every other argument is ignored.
    pub fn new(args: &[String]) -> (r: Self)
        ensures
            r.ignore_case == has_case_flag(args@),
    {
        let r = Self::from_args_after(args, 0);
        assert(args@.subrange(0, args@.len() as int) =~= args@);
        r
    }

    /// Reads the options from the arguments of `args` at `start` and after.
    pub fn from_args_after(args: &[String], start: usize) -> (r: Self)
        requires
            start <= args@.len(),
        ensures
            r.ignore_case == has_case_flag(args@.subrange(start as int, args@.len() as int)),
    {
        let mut res = CliOptions::default();
        let mut i: usize = start;
        while i < args.len()
            invariant
                start <= i <= args@.len(),
                res.ignore_case == has_case_flag(args@.subrange(start as int, i as int)),
            decreases args@.len() - i,
        {
            let ghost before = args@.subrange(start as int, i as int);
            let ghost after = args@.subrange(start as int, i + 1);
            assert(after =~= before.push(args@[i as int]));
            if is_case_flag_arg(&args[i]) {
                res.ignore_case = true;
                assert(after[i - start] == args@[i as int]);
            } else {
                assert forall|k: int| 0 <= k < after.len() && is_case_flag(#[trigger] after[k]@)
                    implies 0 <= k < before.len() && is_case_flag(before[k]@) by {
                    if k < before.len() {
                        assert(after[k] == before[k]);
                    }
                }
            }
            proof {
                if has_case_flag(before) {
                    let k = choose|k: int| 0 <= k < before.len() && is_case_flag(#[trigger] before[k]@);
                    assert(after[k] == before[k]);
                }
            }
            i = i + 1;
        }
        res
    }

    /// Switches on case-insensitive matching and hands the options back for
    /// further changes.
    pub fn ignore_case(&mut self) -> (r: &mut Self)
        ensures
            r.ignore_case,
            *final(self) == *final(r),
    {
        self.ignore_case = true;
        self
    }
}

} // verus!
