use vstd::prelude::*;

use crate::cli::{first_flag, is_flag, words};
use crate::text::{chars_of, parse_bool, parse_bool_spec, parse_u64, parse_unsigned, string_of};

verus! {

/// The settings that the environment gives, each absent when unset.
pub struct EnvSettings {
    pub img_delay: Option<String>,
    pub output_dir: Option<String>,
    pub chapter_delay: Option<String>,
    pub zip_format: Option<String>,
    pub auto_compress: Option<String>,
}

/// The settings of a run.
pub struct Globals {
    pub img_delay: u64,
    pub output_dir: String,
    pub chapter_delay: u64,
    pub zip_format: String,
    pub auto_compress: bool,
}

/// `s` with a leading `.` added when it has none.
pub open spec fn with_leading_dot(s: Seq<char>) -> Seq<char> {
    if s.len() > 0 && s[0] == '.' {
        s
    } else {
        seq!['.'] + s
    }
}

/// `s` with a leading `.` added when it has none.
pub fn dotted(s: &str) -> (r: String)
    ensures
        r@ == with_leading_dot(s@),
{
    let v = chars_of(s);
    if v.len() > 0 && v[0] == '.' {
        s.to_owned()
    } else {
        let mut w: Vec<char> = vec!['.'];
        crate::text::append_chars(&mut w, &v);
        assert(w@ =~= seq!['.'] + s@);
        string_of(&w)
    }
}

/// The delay that a setting gives: its number when set, `default` otherwise.
pub open spec fn delay_setting(v: Option<String>, default: nat) -> Option<nat> {
    match v {
        Some(s) => parse_unsigned(s@, u64::MAX as nat),
        None => Some(default),
    }
}

/// The switch that a setting gives: its value when set, off otherwise.
pub open spec fn switch_setting(v: Option<String>) -> Option<bool> {
    match v {
        Some(s) => parse_bool_spec(s@),
        None => Some(false),
    }
}

/// The position of the first `-f`/`--format` on the command line.
pub open spec fn format_flag_at(args: Seq<String>, i: int) -> bool {
    &&& 0 <= i < args.len()
    &&& is_flag(args[i]@, "-f"@, "--format"@)
    &&& forall|j: int| 0 <= j < i ==> !is_flag(#[trigger] args[j]@, "-f"@, "--format"@)
}

/// Whether the command line names a format.
pub open spec fn has_format_flag(args: Seq<String>) -> bool {
    exists|i: int| 0 <= i < args.len() && is_flag(#[trigger] args[i]@, "-f"@, "--format"@)
}

/// Whether the settings can be read: the delays are numbers, the switch is
/// `true` or `false`, and a format flag is followed by a value.
pub open spec fn globals_ok(args: Seq<String>, env: EnvSettings) -> bool {
    &&& delay_setting(env.img_delay, 100) is Some
    &&& delay_setting(env.chapter_delay, 1000) is Some
    &&& switch_setting(env.auto_compress) is Some
    &&& forall|i: int| format_flag_at(args, i) ==> i + 1 < args.len()
}

/// The archive format of a run: the value after the first `-f`/`--format`
/// with a leading `.`, else the setting, else `.zip`.
pub open spec fn format_setting(args: Seq<String>, env: EnvSettings) -> Seq<char> {
    if has_format_flag(args) {
        with_leading_dot(args[(choose|i: int| format_flag_at(args, i)) + 1]@)
    } else {
        match env.zip_format {
            Some(s) => s@,
            None => ".zip"@,
        }
    }
}

proof fn lemma_format_flag_unique(args: Seq<String>, i: int, k: int)
    requires
        format_flag_at(args, i),
        format_flag_at(args, k),
    ensures
        i == k,
{
    if i < k {
        assert(!is_flag(args[i]@, "-f"@, "--format"@));
    } else if k < i {
        assert(!is_flag(args[k]@, "-f"@, "--format"@));
    }
}

/// Reads a delay setting.
fn read_delay(v: &Option<String>, default: u64) -> (r: Option<u64>)
    ensures
        match delay_setting(*v, default as nat) {
            Some(n) => r == Some(n as u64),
            None => r is None,
        },
{
    match v {
        Some(s) => parse_u64(s.as_str()),
        None => Some(default),
    }
}

/// Reads the switch setting.
fn read_switch(v: &Option<String>) -> (r: Option<bool>)
    ensures
        r == switch_setting(*v),
{
    match v {
        Some(s) => parse_bool(s.as_str()),
        None => Some(false),
    }
}

impl Globals {
    /// Whether the settings can be read from this command line and environment.
    pub fn check(args: &Vec<String>, env: &EnvSettings) -> (r: bool)
        ensures
            r == globals_ok(args@, *env),
    {
        let ok_delays = read_delay(&env.img_delay, 100).is_some() && read_delay(
            &env.chapter_delay,
            1000,
        ).is_some() && read_switch(&env.auto_compress).is_some();
        let ok_format = match first_flag(args, "-f", "--format") {
            Some(i) => {
                proof {
                    assert forall|k: int| format_flag_at(args@, k) implies k == i by {
                        lemma_format_flag_unique(args@, i as int, k);
                    }
                }
                assert(format_flag_at(args@, i as int));
                i < args.len() - 1
            },
            None => {
                assert forall|k: int| format_flag_at(args@, k) implies k + 1 < args@.len() by {
                    assert(is_flag(args@[k]@, "-f"@, "--format"@));
                }
                true
            },
        };
        assert(ok_format == (forall|i: int| format_flag_at(args@, i) ==> i + 1 < args@.len()));
        assert(ok_delays == (delay_setting(env.img_delay, 100) is Some && delay_setting(
            env.chapter_delay,
            1000,
        ) is Some && switch_setting(env.auto_compress) is Some));
        ok_delays && ok_format
    }

    /// The settings of a run: the delays between images and chapters, the
    /// output directory, the archive format and whether to compress.
    pub fn new(args: &Vec<String>, env: &EnvSettings) -> (g: Globals)
        requires
            globals_ok(args@, *env),
        ensures
            delay_setting(env.img_delay, 100) == Some(g.img_delay as nat),
            delay_setting(env.chapter_delay, 1000) == Some(g.chapter_delay as nat),
            g.output_dir@ == match env.output_dir {
                Some(s) => s@,
                None => "./output"@,
            },
            g.zip_format@ == format_setting(args@, *env),
            switch_setting(env.auto_compress) == Some(g.auto_compress),
    {
        let img_delay = match read_delay(&env.img_delay, 100) {
            Some(n) => n,
            None => 100,
        };
        let chapter_delay = match read_delay(&env.chapter_delay, 1000) {
            Some(n) => n,
            None => 1000,
        };
        let output_dir = match &env.output_dir {
            Some(s) => s.clone(),
            None => "./output".to_owned(),
        };
        let zip_format = match first_flag(args, "-f", "--format") {
            Some(i) => {
                proof {
                    assert(format_flag_at(args@, i as int));
                    assert(has_format_flag(args@));
                    let k = choose|k: int| format_flag_at(args@, k);
                    lemma_format_flag_unique(args@, i as int, k);
                }
                let n = args.len();
                assert(i + 1 < n);
                let next = i + 1;
                dotted(args[next].as_str())
            },
            None => match &env.zip_format {
                Some(s) => s.clone(),
                None => ".zip".to_owned(),
            },
        };
        let auto_compress = match read_switch(&env.auto_compress) {
            Some(b) => b,
            None => false,
        };
        Globals { img_delay, output_dir, chapter_delay, zip_format, auto_compress }
    }
}

} // verus!

verus! {

/// A format always comes out with a leading `.`, and adding the dot again
/// changes nothing.
pub proof fn lemma_leading_dot(s: Seq<char>)
    ensures
        with_leading_dot(s).len() > 0,
        with_leading_dot(s)[0] == '.',
        with_leading_dot(with_leading_dot(s)) == with_leading_dot(s),
{
}

} // verus!

verus! {

/// The auto-compress switch reads as the word it spells: `true` switches
/// compression on, `false` and an unset switch leave it off, and any other
/// text cannot be read.
pub proof fn lemma_switch_spells(v: Option<String>)
    ensures
        v is None ==> switch_setting(v) == Some(false),
        v matches Some(s) && s@ == "true"@ ==> switch_setting(v) == Some(true),
        v matches Some(s) && s@ == "false"@ ==> switch_setting(v) == Some(false),
        v matches Some(s) && s@ != "true"@ && s@ != "false"@ ==> switch_setting(v) is None,
{
    reveal_strlit("true");
    reveal_strlit("false");
    assert("true"@ =~= seq!['t', 'r', 'u', 'e']);
    assert("false"@ =~= seq!['f', 'a', 'l', 's', 'e']);
}

/// A delay set to the decimal text of a number reads as that number, and an
/// unset delay is the default.
pub proof fn lemma_delay_reads_number(v: Option<String>, n: nat, default: nat)
    requires
        n <= u64::MAX,
    ensures
        v matches Some(s) && s@ == crate::text::decimal(n) ==> delay_setting(v, default) == Some(n),
        v is None ==> delay_setting(v, default) == Some(default),
{
    crate::text::lemma_parse_reads_back_decimal(n, u64::MAX as nat);
}

} // verus!
