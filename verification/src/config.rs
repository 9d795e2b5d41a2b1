//! Command-line configuration: one positional input path, and the flags that
//! print the syntax tree and enable safe-split elision.

use vstd::prelude::*;
use vstd::string::StrSliceExecFns;
use vstd::string::StringExecFns;

verus! {

/// What the command line asked for.
pub struct Config {
    pub file_path: String,
    pub print: bool,
    pub skip_safe: bool,
}

/// An argument shaped like an option: nonempty and starting with a dash.
pub open spec fn spec_is_option_arg(s: Seq<char>) -> bool {
    s.len() > 0 && s[0] == '-'
}

fn is_option_arg(s: &String) -> (r: bool)
    ensures
        r == spec_is_option_arg(s@),
{
    let st = s.as_str();
    st.unicode_len() > 0 && st.get_char(0) == '-'
}

/// Removes the first occurrence of `flag` from `args` (by swapping the last
/// element into its place) and reports whether one was there.
pub fn check_flag(args: &mut Vec<String>, flag: &str) -> (r: bool)
    ensures
        r == exists|i: int| 0 <= i < old(args)@.len() && (#[trigger] old(args)@[i])@ == flag@,
        if r {
            exists|i: int|
                {
                    &&& 0 <= i < old(args)@.len()
                    &&& (#[trigger] old(args)@[i])@ == flag@
                    &&& forall|j: int| 0 <= j < i ==> (#[trigger] old(args)@[j])@ != flag@
                    &&& final(args)@ == old(args)@.update(i, old(args)@.last()).drop_last()
                }
        } else {
            final(args)@ == old(args)@
        },
{
    let flag_string = String::from_str(flag);
    let mut p: usize = 0;
    while p < args.len()
        invariant
            p <= args@.len(),
            args@ == old(args)@,
            flag_string@ == flag@,
            forall|j: int| 0 <= j < p ==> (#[trigger] args@[j])@ != flag@,
        decreases args@.len() - p,
    {
        if args[p] == flag_string {
            let _removed = args.swap_remove(p);
            return true;
        }
        p = p + 1;
    }
    false
}

/// Reads the configuration out of the raw argument list: the first argument
/// after the program name that does not look like an option is the input
/// path; `-p` asks for the syntax tree; `--skip-safe` enables safe-split
/// elision. Yields nothing when no input path is present.
pub fn parse_config(args: Vec<String>) -> (r: Option<Config>)
    ensures
        match r {
            None => args@.len() == 0 || forall|i: int|
                1 <= i < args@.len() ==> spec_is_option_arg((#[trigger] args@[i])@),
            Some(c) => {
                &&& exists|i: int|
                    {
                        &&& 1 <= i < args@.len()
                        &&& !spec_is_option_arg((#[trigger] args@[i])@)
                        &&& forall|j: int|
                            1 <= j < i ==> spec_is_option_arg((#[trigger] args@[j])@)
                        &&& c.file_path@ == args@[i]@
                    }
                &&& c.print == exists|j: int|
                    1 <= j < args@.len() && (#[trigger] args@[j])@ == "-p"@
                &&& c.skip_safe == exists|j: int|
                    1 <= j < args@.len() && (#[trigger] args@[j])@ == "--skip-safe"@
            },
        },
{
    if args.len() == 0 {
        return None;
    }
    let mut i: usize = 1;
    let mut found: bool = false;
    while !found && i < args.len()
        invariant
            1 <= i <= args@.len(),
            found ==> i < args@.len() && !spec_is_option_arg(args@[i as int]@),
            forall|j: int| 1 <= j < i ==> spec_is_option_arg((#[trigger] args@[j])@),
        decreases (if found { 0int } else { 1int }), args@.len() - i,
    {
        if is_option_arg(&args[i]) {
            i = i + 1;
        } else {
            found = true;
        }
    }
    if !found {
        return None;
    }
    let file_path = args[i].clone();
    let print = scan_for(&args, "-p");
    let skip_safe = scan_for(&args, "--skip-safe");
    Some(Config { file_path, print, skip_safe })
}

/// Whether any argument after the program name equals `flag`.
fn scan_for(args: &Vec<String>, flag: &str) -> (r: bool)
    requires
        args@.len() >= 1,
    ensures
        r == exists|j: int| 1 <= j < args@.len() && (#[trigger] args@[j])@ == flag@,
{
    let flag_string = String::from_str(flag);
    let mut j: usize = 1;
    while j < args.len()
        invariant
            1 <= j <= args@.len(),
            flag_string@ == flag@,
            forall|k: int| 1 <= k < j ==> (#[trigger] args@[k])@ != flag@,
        decreases args@.len() - j,
    {
        if args[j] == flag_string {
            return true;
        }
        j = j + 1;
    }
    false
}

} // verus!
