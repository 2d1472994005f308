//! Command-line options of the executable, and the texts it hands to Windows.

use vstd::prelude::*;
use vstd::string::*;
use crate::text::{chars_of, seq_equal, parse_i64, parse_u32, parse_signed_spec, parse_unsigned_spec};

verus! {

/// Index of the first occurrence of `flag`, or -1.
pub open spec fn first_flag(args: Seq<String>, flag: Seq<char>) -> int {
    if exists|i: int| 0 <= i < args.len() && (#[trigger] args[i])@ == flag {
        choose|i: int| 0 <= i < args.len() && (#[trigger] args[i])@ == flag && forall|k: int|
            0 <= k < i ==> (#[trigger] args[k])@ != flag
    } else {
        -1
    }
}

fn find_flag(args: &Vec<String>, flag: &str) -> (r: Option<usize>)
    ensures
        match r {
            Some(i) => i < args@.len() && i == first_flag(args@, flag@),
            None => first_flag(args@, flag@) == -1,
        },
{
    let f = chars_of(flag);
    let mut index: usize = 0;
    while index < args.len()
        invariant
            index <= args@.len(),
            f@ == flag@,
            forall|k: int| 0 <= k < index ==> (#[trigger] args@[k])@ != flag@,
        decreases args@.len() - index,
    {
        if seq_equal(&chars_of(args[index].as_str()), &f) {
            proof {
                let c = choose|i: int| 0 <= i < args@.len() && (#[trigger] args@[i])@ == flag@ && forall|k: int|
                    0 <= k < i ==> (#[trigger] args@[k])@ != flag@;
                if c < index {
                } else if index < c {
                    assert(args@[index as int]@ == flag@);
                }
            }
            return Some(index);
        }
        index += 1;
    }
    None
}

/// The value after the first `--config`, if there is one.
pub fn parse_config_path(args: &Vec<String>) -> (r: Option<String>)
    ensures
        ({
            let i = first_flag(args@, "--config"@);
            if 0 <= i && i + 1 < args@.len() {
                r == Some(args@[i + 1])
            } else {
                r is None
            }
        }),
{
    match find_flag(args, "--config") {
        Some(i) => {
            let n = args.len();
            if i + 1 < n {
                Some(args[i + 1].clone())
            } else {
                None
            }
        },
        None => None,
    }
}

/// The streak length for previewing a break reminder: after the first
/// `--debug-trigger-health-reminder`, the next argument when it is an `i64`, else 3000
/// seconds; `None` without the flag.
pub fn parse_debug_trigger_health_reminder(args: &Vec<String>) -> (r: Option<i64>)
    ensures
        ({
            let i = first_flag(args@, "--debug-trigger-health-reminder"@);
            if i < 0 {
                r is None
            } else if i + 1 < args@.len() && parse_signed_spec(args@[i + 1]@, i64::MIN as int, i64::MAX as int) is Some {
                r == Some(parse_signed_spec(args@[i + 1]@, i64::MIN as int, i64::MAX as int)->Some_0 as i64)
            } else {
                r == Some(3000i64)
            }
        }),
{
    match find_flag(args, "--debug-trigger-health-reminder") {
        Some(i) => {
            let n = args.len();
            if i + 1 < n {
                match parse_i64(&chars_of(args[i + 1].as_str())) {
                    Some(v) => Some(v),
                    None => Some(3_000),
                }
            } else {
                Some(3_000)
            }
        },
        None => None,
    }
}

/// A previewed reminder shows a streak of at least a minute.
pub fn preview_streak_secs(requested: i64) -> (r: i64)
    ensures
        r == if requested >= 60 { requested } else { 60 },
{
    if requested >= 60 {
        requested
    } else {
        60
    }
}

/// The log filter: debug output of the application itself when debugging.
pub fn tracing_filter_directive(debug: bool) -> (r: &'static str)
    ensures
        r@ == if debug { "timeline=debug,info"@ } else { "info"@ },
{
    if debug {
        "timeline=debug,info"
    } else {
        "info"
    }
}

/// The stored retention setting as a number of days, `None` when it is not one.
pub fn parse_retention_setting(value: &str) -> (r: Option<u32>)
    ensures
        match r {
            Some(d) => parse_unsigned_spec(value@, u32::MAX as int) == Some(d as int),
            None => parse_unsigned_spec(value@, u32::MAX as int) is None,
        },
{
    parse_u32(&chars_of(value))
}

/// The command Windows runs at logon: the quoted executable, then `--config` and
/// the quoted configuration path when there is one.
pub open spec fn launch_command_spec(exe: Seq<char>, config_path: Option<Seq<char>>) -> Seq<char> {
    match config_path {
        Some(p) => seq!['"'] + exe + "\" --config \""@ + p + seq!['"'],
        None => seq!['"'] + exe + seq!['"'],
    }
}

pub fn launch_command(exe: &str, config_path: Option<&str>) -> (r: String)
    ensures
        r@ == launch_command_spec(exe@, match config_path {
            Some(p) => Some(p@),
            None => None,
        }),
{
    let quote = String::from_str("\"");
    let with_exe = quote.concat(exe);
    match config_path {
        Some(p) => {
            let a = with_exe.concat("\" --config \"");
            let b = a.concat(p);
            let c = b.concat("\"");
            proof {
                reveal_strlit("\"");
                assert(c@ =~= seq!['"'] + exe@ + "\" --config \""@ + p@ + seq!['"']);
            }
            c
        },
        None => {
            let c = with_exe.concat("\"");
            proof {
                reveal_strlit("\"");
                assert(c@ =~= seq!['"'] + exe@ + seq!['"']);
            }
            c
        },
    }
}

/// What a tray menu entry does.
#[derive(Clone, Copy, Debug, PartialEq, Eq, Structural)]
pub enum TrayAction {
    OpenFrontend,
    Quit,
}

/// The action of the tray menu entry with id `id`.
pub fn tray_menu_action(id: &str) -> (r: Option<TrayAction>)
    ensures
        r == if id@ == "open"@ {
            Some(TrayAction::OpenFrontend)
        } else if id@ == "quit"@ {
            Some(TrayAction::Quit)
        } else {
            None
        },
{
    let v = chars_of(id);
    if seq_equal(&v, &chars_of("open")) {
        Some(TrayAction::OpenFrontend)
    } else if seq_equal(&v, &chars_of("quit")) {
        Some(TrayAction::Quit)
    } else {
        None
    }
}

} // verus!
