use vstd::prelude::*;

use crate::cli::{has_any, is_flag, skip_from_args, skip_setting, FlagError};

verus! {

/// What the first word of the command line asks for.
#[derive(Debug, PartialEq, Eq, Structural)]
pub enum Command {
    Help,
    Compress,
    Clean,
    Download,
}

/// The command that a command line asks for: help when there is no word
/// after the program name or when it is `-h`, `--help`, `help` or `h`;
/// `compress`; `clean`; any other word is a URL to download.
pub open spec fn command_spec(args: Seq<String>) -> Command {
    if args.len() <= 1 {
        Command::Help
    } else if is_flag(args[1]@, "-h"@, "--help"@) || is_flag(args[1]@, "help"@, "h"@) {
        Command::Help
    } else if args[1]@ == "compress"@ {
        Command::Compress
    } else if args[1]@ == "clean"@ {
        Command::Clean
    } else {
        Command::Download
    }
}

/// The command that a command line asks for.
pub fn command_for(args: &Vec<String>) -> (r: Command)
    ensures
        r == command_spec(args@),
{
    if args.len() <= 1 {
        return Command::Help;
    }
    let w = args[1].as_str();
    if crate::cli::is_flag_arg(w, "-h", "--help") || crate::cli::is_flag_arg(w, "help", "h") {
        Command::Help
    } else if crate::cli::str_eq(w, "compress") {
        Command::Compress
    } else if crate::cli::str_eq(w, "clean") {
        Command::Clean
    } else {
        Command::Download
    }
}

/// Whether `clean` deletes without asking: `-y`, `-f`, `--force` or `-F` is given.
pub fn clean_forced(args: &Vec<String>) -> (r: bool)
    ensures
        r == exists|i: int|
            0 <= i < args@.len() && (is_flag(#[trigger] args@[i]@, "-y"@, "-f"@) || is_flag(
                args@[i]@,
                "--force"@,
                "-F"@,
            )),
{
    has_any(args, "-y", "-f", "--force", "-F")
}

/// Whether compression overwrites existing archives: `--force` or `-F` is given.
pub fn compress_forced(args: &Vec<String>) -> (r: bool)
    ensures
        r == exists|i: int|
            0 <= i < args@.len() && (is_flag(#[trigger] args@[i]@, "--force"@, "-F"@) || is_flag(
                args@[i]@,
                "--force"@,
                "-F"@,
            )),
{
    has_any(args, "--force", "-F", "--force", "-F")
}

/// Whether a download is followed by compression: `--autocompress` or `-a`
/// is given, or the setting asks for it.
pub fn autocompress(args: &Vec<String>, setting: bool) -> (r: bool)
    ensures
        r == ((exists|i: int|
            0 <= i < args@.len() && (is_flag(#[trigger] args@[i]@, "--autocompress"@, "-a"@)
                || is_flag(args@[i]@, "--autocompress"@, "-a"@))) || setting),
{
    has_any(args, "--autocompress", "-a", "--autocompress", "-a") || setting
}

/// The number of chapters to skip: the last value of `--skip`/`-s`, 0 when none.
pub fn download_skip(args: &Vec<String>) -> (r: Result<u32, FlagError>)
    ensures
        r == skip_setting(args@, "--skip"@, "-s"@),
{
    skip_from_args(args, "--skip", "-s")
}

} // verus!

verus! {

/// `--skip n` or `-s n`, given once with `n` written in decimal, skips `n`
/// chapters; without the flag nothing is skipped.
pub proof fn lemma_skip_flag_reads_number(args: Seq<String>, i: int, n: nat)
    requires
        n <= u32::MAX,
    ensures
        (forall|j: int| 0 <= j < args.len() ==> !is_flag(#[trigger] args[j]@, "--skip"@, "-s"@))
            ==> skip_setting(args, "--skip"@, "-s"@) == Ok::<u32, FlagError>(0),
        (0 <= i && i + 1 < args.len() && is_flag(args[i]@, "--skip"@, "-s"@) && args[i + 1]@
            == crate::text::decimal(n) && forall|j: int|
            0 <= j < args.len() && j != i ==> !is_flag(#[trigger] args[j]@, "--skip"@, "-s"@))
            ==> skip_setting(args, "--skip"@, "-s"@) == Ok::<u32, FlagError>(n as u32),
{
    let w = crate::cli::words(args);
    assert forall|j: int| 0 <= j < w.len() implies w[j] == args[j]@ by {}
    if forall|j: int| 0 <= j < args.len() ==> !is_flag(#[trigger] args[j]@, "--skip"@, "-s"@) {
        assert forall|j: int| 0 <= j < w.len() implies !is_flag(#[trigger] w[j], "--skip"@, "-s"@) by {
            assert(w[j] == args[j]@);
        }
        crate::cli::lemma_absent_flag_no_values(w, "--skip"@, "-s"@, 1);
    }
    if 0 <= i && i + 1 < args.len() && is_flag(args[i]@, "--skip"@, "-s"@) && args[i + 1]@
        == crate::text::decimal(n) && forall|j: int|
        0 <= j < args.len() && j != i ==> !is_flag(#[trigger] args[j]@, "--skip"@, "-s"@) {
        assert forall|j: int| 0 <= j < w.len() && j != i implies !is_flag(#[trigger] w[j], "--skip"@, "-s"@) by {
            assert(w[j] == args[j]@);
        }
        crate::cli::lemma_single_flag_value(w, "--skip"@, "-s"@, i);
        crate::text::lemma_parse_reads_back_decimal(n, u32::MAX as nat);
        let occ = crate::cli::flag_values(w, "--skip"@, "-s"@, 1);
        assert(occ[0][0] == crate::text::decimal(n));
        assert(crate::cli::values_parse(occ, 0, u32::MAX as nat));
    }
}

} // verus!
