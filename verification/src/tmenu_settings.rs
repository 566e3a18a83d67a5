//! Session configuration: the matching flags, the candidate entries, and
//! the argument scanner that fills both from a command line.

use vstd::prelude::*;
use vstd::string::StringExecFns;

use crate::menu_item::{is_created_from, MenuItem};
use crate::text::{parse_u32, parse_u32_spec, str_eq};

verus! {

/// Which help text the caller should print, if any.
#[derive(Debug, Copy, Clone)]
pub enum PrintHelp {
    No,
    Short,
    Long,
}

/// Read-only session configuration, fixed before the first event.
#[derive(Debug)]
pub struct TMenuSettings {
    pub auto_accept: bool,
    pub case_insensitive: bool,
    pub allow_undefined: bool,
    pub filter_by_prefix: bool,
    pub fuzzy: bool,
    pub verbose: bool,
    pub print_help: PrintHelp,
    pub available_options: Vec<MenuItem>,
    pub width: Option<u32>,
}

impl Default for TMenuSettings {
    /// All flags off, no entries, no width.
    fn default() -> (r: Self)
        ensures
            !r.auto_accept,
            !r.case_insensitive,
            !r.allow_undefined,
            !r.filter_by_prefix,
            !r.fuzzy,
            !r.verbose,
            r.print_help is No,
            r.available_options@ == Seq::<MenuItem>::empty(),
            r.width is None,
    {
        TMenuSettings {
            auto_accept: false,
            case_insensitive: false,
            allow_undefined: false,
            filter_by_prefix: false,
            fuzzy: false,
            verbose: false,
            print_help: PrintHelp::No,
            available_options: Vec::new(),
            width: None,
        }
    }
}

/// Why the command line was rejected: an option nobody knows, or a width
/// that is not a decimal number.
#[derive(Debug)]
pub enum ArgsError {
    UnknownOption(String),
    InvalidWidth,
}

/// Where scanning the command line went wrong: the position of the unknown
/// option, or of the width value that did not parse.
pub enum ArgsFault {
    Unknown(int),
    BadWidth(int),
}

/// The state of the argument scanner: the flags gathered so far, whether
/// entries still come from the caller's input, where inline entries start,
/// and the first fault.
pub struct ArgScan {
    pub auto_accept: bool,
    pub case_insensitive: bool,
    pub allow_undefined: bool,
    pub filter_by_prefix: bool,
    pub fuzzy: bool,
    pub verbose: bool,
    pub print_help: PrintHelp,
    pub width: Option<u32>,
    pub read_stdin: bool,
    pub options_from: Option<int>,
    pub error: Option<ArgsFault>,
}

/// The scanner state that carries the settings' current flags, before any
/// argument is read.
pub open spec fn scan_of(s: TMenuSettings, read_stdin: bool) -> ArgScan {
    ArgScan {
        auto_accept: s.auto_accept,
        case_insensitive: s.case_insensitive,
        allow_undefined: s.allow_undefined,
        filter_by_prefix: s.filter_by_prefix,
        fuzzy: s.fuzzy,
        verbose: s.verbose,
        print_help: s.print_help,
        width: s.width,
        read_stdin,
        options_from: None,
        error: None,
    }
}

/// One pass of the argument scanner from position `i`: each flag sets its
/// field; `-w`/`--width` consumes a decimal width; `--` ends the scan and
/// marks where inline entries start; `-h`/`--help` request help and stop
/// the caller's input from being read; anything else is a fault.
pub open spec fn scan_args(args: Seq<String>, i: int, acc: ArgScan) -> ArgScan
    decreases args.len() - i,
{
    if i < 0 || i >= args.len() {
        acc
    } else {
        let a = args[i]@;
        if a == "-a"@ || a == "--auto-accept"@ {
            scan_args(args, i + 1, ArgScan { auto_accept: true, ..acc })
        } else if a == "-i"@ || a == "--case-insensitive"@ {
            scan_args(args, i + 1, ArgScan { case_insensitive: true, ..acc })
        } else if a == "-p"@ || a == "--match_prefix"@ {
            scan_args(args, i + 1, ArgScan { filter_by_prefix: true, ..acc })
        } else if a == "-f"@ || a == "--fuzzy"@ {
            scan_args(args, i + 1, ArgScan { fuzzy: true, ..acc })
        } else if a == "-u"@ || a == "--allow-undefined"@ {
            scan_args(args, i + 1, ArgScan { allow_undefined: true, ..acc })
        } else if a == "-w"@ || a == "--width"@ {
            if i + 1 < args.len() {
                match parse_u32_spec(args[i + 1]@) {
                    Some(w) => scan_args(args, i + 2, ArgScan { width: Some(w), ..acc }),
                    None => ArgScan { error: Some(ArgsFault::BadWidth(i + 1)), ..acc },
                }
            } else {
                ArgScan { error: Some(ArgsFault::Unknown(i)), ..acc }
            }
        } else if a == "--"@ {
            ArgScan { read_stdin: false, options_from: Some(i + 1), ..acc }
        } else if a == "--verbose"@ {
            scan_args(args, i + 1, ArgScan { verbose: true, ..acc })
        } else if a == "-h"@ {
            scan_args(
                args,
                i + 1,
                ArgScan { print_help: PrintHelp::Short, read_stdin: false, ..acc },
            )
        } else if a == "--help"@ {
            scan_args(
                args,
                i + 1,
                ArgScan { print_help: PrintHelp::Long, read_stdin: false, ..acc },
            )
        } else {
            ArgScan { error: Some(ArgsFault::Unknown(i)), ..acc }
        }
    }
}

/// Everything of the settings but the entries agrees.
pub open spec fn same_settings_flags(a: TMenuSettings, b: TMenuSettings) -> bool {
    &&& a.auto_accept == b.auto_accept
    &&& a.case_insensitive == b.case_insensitive
    &&& a.allow_undefined == b.allow_undefined
    &&& a.filter_by_prefix == b.filter_by_prefix
    &&& a.fuzzy == b.fuzzy
    &&& a.verbose == b.verbose
    &&& a.print_help == b.print_help
    &&& a.width == b.width
}

/// Scan the command line (the program name first) into the settings.
/// Returns whether entries should still be read from the caller's input,
/// or the first fault; entries after `--` are parsed and appended in order.
#[verifier::rlimit(100)]
#[verifier::spinoff_prover]
pub fn parse_args(args: &Vec<String>, state: &mut TMenuSettings) -> (r: Result<bool, ArgsError>)
    requires
        args@.len() >= 1,
    ensures
        ({
            let scan = scan_args(args@, 1, scan_of(*old(state), true));
            &&& same_settings_flags(*final(state), TMenuSettings {
                auto_accept: scan.auto_accept,
                case_insensitive: scan.case_insensitive,
                allow_undefined: scan.allow_undefined,
                filter_by_prefix: scan.filter_by_prefix,
                fuzzy: scan.fuzzy,
                verbose: scan.verbose,
                print_help: scan.print_help,
                width: scan.width,
                ..*old(state)
            })
            &&& match scan.error {
                Some(ArgsFault::Unknown(j)) => r matches Err(ArgsError::UnknownOption(o)) && o@
                    == args@[j]@,
                Some(ArgsFault::BadWidth(_)) => r matches Err(e) && e is InvalidWidth,
                None => r matches Ok(b) && b == scan.read_stdin,
            }
            &&& match scan.options_from {
                Some(j) => {
                    let n0 = old(state).available_options@.len() as int;
                    let opts = final(state).available_options@;
                    &&& opts.len() == n0 + (args@.len() - j)
                    &&& forall|k: int|
                        0 <= k < n0 ==> #[trigger] opts[k] == old(state).available_options@[k]
                    &&& forall|k: int|
                        0 <= k < args@.len() - j ==> is_created_from(
                            #[trigger] opts[n0 + k],
                            args@[j + k]@,
                            k,
                        )
                },
                None => final(state).available_options == old(state).available_options,
            }
        }),
{
    let len = args.len();
    let mut read_stdin = true;
    let mut i: usize = 1;
    while i < len
        invariant
            1 <= i <= len,
            len == args@.len(),
            scan_args(args@, 1, scan_of(*old(state), true)) == scan_args(
                args@,
                i as int,
                scan_of(*state, read_stdin),
            ),
            state.available_options == old(state).available_options,
        decreases len - i,
    {
        let ghost i0 = i as int;
        let ghost cur0 = scan_of(*state, read_stdin);
        let a = &args[i];
        if str_eq(a.as_str(), "-a") || str_eq(a.as_str(), "--auto-accept") {
            state.auto_accept = true;
            i += 1;
            proof {
                assert(scan_args(args@, i0, cur0) == scan_args(
                    args@,
                    i as int,
                    scan_of(*state, read_stdin),
                ));
            }
        } else if str_eq(a.as_str(), "-i") || str_eq(a.as_str(), "--case-insensitive") {
            state.case_insensitive = true;
            i += 1;
            proof {
                assert(scan_args(args@, i0, cur0) == scan_args(
                    args@,
                    i as int,
                    scan_of(*state, read_stdin),
                ));
            }
        } else if str_eq(a.as_str(), "-p") || str_eq(a.as_str(), "--match_prefix") {
            state.filter_by_prefix = true;
            i += 1;
            proof {
                assert(scan_args(args@, i0, cur0) == scan_args(
                    args@,
                    i as int,
                    scan_of(*state, read_stdin),
                ));
            }
        } else if str_eq(a.as_str(), "-f") || str_eq(a.as_str(), "--fuzzy") {
            state.fuzzy = true;
            i += 1;
            proof {
                assert(scan_args(args@, i0, cur0) == scan_args(
                    args@,
                    i as int,
                    scan_of(*state, read_stdin),
                ));
            }
        } else if str_eq(a.as_str(), "-u") || str_eq(a.as_str(), "--allow-undefined") {
            state.allow_undefined = true;
            i += 1;
            proof {
                assert(scan_args(args@, i0, cur0) == scan_args(
                    args@,
                    i as int,
                    scan_of(*state, read_stdin),
                ));
            }
        } else if str_eq(a.as_str(), "-w") || str_eq(a.as_str(), "--width") {
            if i + 1 < len {
                match parse_u32(args[i + 1].as_str()) {
                    Some(width) => {
                        state.width = Some(width);
                        i += 2;
                        proof {
                            assert(scan_args(args@, i0, cur0) == scan_args(
                                args@,
                                i as int,
                                scan_of(*state, read_stdin),
                            ));
                        }
                    },
                    None => {
                        proof {
                            assert(scan_args(args@, i0, cur0) == (ArgScan {
                                error: Some(ArgsFault::BadWidth(i0 + 1)),
                                ..cur0
                            }));
                        }
                        return Err(ArgsError::InvalidWidth);
                    },
                }
            } else {
                proof {
                    assert(scan_args(args@, i0, cur0) == (ArgScan {
                        error: Some(ArgsFault::Unknown(i0)),
                        ..cur0
                    }));
                }
                return Err(ArgsError::UnknownOption(a.clone()));
            }
        } else if str_eq(a.as_str(), "--") {
            proof {
                assert(scan_args(args@, i0, cur0) == (ArgScan {
                    read_stdin: false,
                    options_from: Some(i0 + 1),
                    ..cur0
                }));
            }
            let start = i + 1;
            let ghost opts0 = state.available_options@;
            let ghost flags0 = *state;
            let mut j: usize = start;
            while j < len
                invariant
                    start <= j <= len,
                    start == i + 1,
                    len == args@.len(),
                    same_settings_flags(*state, flags0),
                    state.available_options@.len() == opts0.len() + (j - start),
                    forall|k: int|
                        0 <= k < opts0.len() ==> #[trigger] state.available_options@[k] == opts0[k],
                    forall|k: int|
                        0 <= k < j - start ==> is_created_from(
                            #[trigger] state.available_options@[opts0.len() + k],
                            args@[start + k]@,
                            k,
                        ),
                decreases len - j,
            {
                let item = MenuItem::create(args[j].as_str(), j - start);
                state.available_options.push(item);
                j += 1;
            }
            return Ok(false);
        } else if str_eq(a.as_str(), "--verbose") {
            state.verbose = true;
            i += 1;
            proof {
                assert(scan_args(args@, i0, cur0) == scan_args(
                    args@,
                    i as int,
                    scan_of(*state, read_stdin),
                ));
            }
        } else if str_eq(a.as_str(), "-h") {
            state.print_help = PrintHelp::Short;
            read_stdin = false;
            i += 1;
            proof {
                assert(scan_args(args@, i0, cur0) == scan_args(
                    args@,
                    i as int,
                    scan_of(*state, read_stdin),
                ));
            }
        } else if str_eq(a.as_str(), "--help") {
            state.print_help = PrintHelp::Long;
            read_stdin = false;
            i += 1;
            proof {
                assert(scan_args(args@, i0, cur0) == scan_args(
                    args@,
                    i as int,
                    scan_of(*state, read_stdin),
                ));
            }
        } else {
            proof {
                assert(scan_args(args@, i0, cur0) == (ArgScan {
                    error: Some(ArgsFault::Unknown(i0)),
                    ..cur0
                }));
            }
            return Err(ArgsError::UnknownOption(a.clone()));
        }
    }
    Ok(read_stdin)
}

/// Parse each line into an entry and append it, numbering lines from zero.
pub fn read_options(state: &mut TMenuSettings, lines: &Vec<String>)
    ensures
        same_settings_flags(*final(state), *old(state)),
        final(state).available_options@.len() == old(state).available_options@.len()
            + lines@.len(),
        forall|k: int|
            0 <= k < old(state).available_options@.len()
                ==> #[trigger] final(state).available_options@[k]
                == old(state).available_options@[k],
        forall|k: int|
            0 <= k < lines@.len() ==> is_created_from(
                #[trigger] final(state).available_options@[old(state).available_options@.len()
                    + k],
                lines@[k]@,
                k,
            ),
{
    let mut index: usize = 0;
    while index < lines.len()
        invariant
            0 <= index <= lines@.len(),
            same_settings_flags(*state, *old(state)),
            state.available_options@.len() == old(state).available_options@.len() + index,
            forall|k: int|
                0 <= k < old(state).available_options@.len() ==> #[trigger] state.available_options@[k]
                    == old(state).available_options@[k],
            forall|k: int|
                0 <= k < index ==> is_created_from(
                    #[trigger] state.available_options@[old(state).available_options@.len() + k],
                    lines@[k]@,
                    k,
                ),
        decreases lines@.len() - index,
    {
        let item = MenuItem::create(lines[index].as_str(), index);
        state.available_options.push(item);
        index += 1;
    }
}

} // verus!
