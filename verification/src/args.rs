//! The command-line surface, as data.
//!
//! A positional script-file-path argument, and an optional `--gui` flag
//! selecting the interactive mode over headless console execution. With no
//! arguments at all the caller prints usage help. The caller passes the
//! full argument vector, program name included; reading the process
//! environment stays outside the library.

use vstd::prelude::*;

use crate::values::str_eq;

verus! {

/// What the command line asked for.
#[derive(Debug)]
pub struct Arguments {
    pub file_path: Option<String>,
    pub gui_mode: bool,
}

/// `s` starts with `--`.
pub open spec fn is_flag(s: Seq<char>) -> bool {
    s.len() >= 2 && s[0] == '-' && s[1] == '-'
}

/// Some argument after the program name is `--gui`.
pub open spec fn wants_gui(args: Seq<Seq<char>>) -> bool {
    exists|i: int| 1 <= i < args.len() && args[i] == "--gui"@
}

fn starts_with_dashes(s: &str) -> (r: bool)
    ensures
        r == is_flag(s@),
{
    let n = s.unicode_len();
    n >= 2 && s.get_char(0) == '-' && s.get_char(1) == '-'
}

/// Reads the argument vector (program name first). `None` asks for the
/// usage help. Otherwise: the first argument is the script path unless it
/// is a flag, and `--gui` anywhere selects the interactive mode.
pub fn parse_arguments(args: &Vec<String>) -> (r: Option<Arguments>)
    ensures
        r is None <==> args.len() <= 1,
        r matches Some(a) ==> {
            &&& if is_flag(args.deep_view()[1]) {
                a.file_path is None
            } else {
                a.file_path matches Some(p) && p@ == args.deep_view()[1]
            }
            &&& a.gui_mode == wants_gui(args.deep_view())
        },
{
    if args.len() <= 1 {
        return None;
    }
    let first = &args[1];
    let file_path: Option<String> = if starts_with_dashes(first.as_str()) {
        None
    } else {
        Some(first.clone())
    };
    let mut gui_mode = false;
    let mut i: usize = 1;
    while i < args.len()
        invariant
            1 <= i <= args.len(),
            gui_mode == (exists|j: int| 1 <= j < i && args.deep_view()[j] == "--gui"@),
        decreases args.len() - i,
    {
        if str_eq(args[i].as_str(), "--gui") {
            proof {
                assert(args.deep_view()[i as int] == "--gui"@);
            }
            gui_mode = true;
        }
        i += 1;
    }
    Some(Arguments { file_path, gui_mode })
}

} // verus!
