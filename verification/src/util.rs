use vstd::prelude::*;

verus! {

/// ANSI escape sequences for the colors the program prints in.
pub struct Color {
    pub red: &'static str,
    pub green: &'static str,
    pub yellow: &'static str,
    pub blue: &'static str,
    pub magenta: &'static str,
    pub cyan: &'static str,
    pub white: &'static str,
    pub end: &'static str,
}

impl Color {
    /// The escape sequences of the eight colors, `end` resetting them.
    pub fn new() -> (c: Color)
        ensures
            c.red@ == "\x1b[31m"@,
            c.green@ == "\x1b[32m"@,
            c.yellow@ == "\x1b[33m"@,
            c.blue@ == "\x1b[34m"@,
            c.magenta@ == "\x1b[35m"@,
            c.cyan@ == "\x1b[36m"@,
            c.white@ == "\x1b[37m"@,
            c.end@ == "\x1b[0m"@,
    {
        Color {
            red: "\x1b[31m",
            green: "\x1b[32m",
            yellow: "\x1b[33m",
            blue: "\x1b[34m",
            magenta: "\x1b[35m",
            cyan: "\x1b[36m",
            white: "\x1b[37m",
            end: "\x1b[0m",
        }
    }
}

} // verus!

verus! {

/// The sites that the program downloads from.
#[derive(Debug, PartialEq, Eq, Structural)]
pub enum Site {
    Mangakakalot,
    Chapmanganato,
    Unsupported,
}

/// The site of a host name.
pub open spec fn site_spec(host: Seq<char>) -> Site {
    if host == "mangakakalot.com"@ {
        Site::Mangakakalot
    } else if host == "chapmanganato.com"@ {
        Site::Chapmanganato
    } else {
        Site::Unsupported
    }
}

/// The site of a host name: `mangakakalot.com` and `chapmanganato.com` are supported.
pub fn site_for(host: &str) -> (r: Site)
    ensures
        r == site_spec(host@),
{
    if crate::cli::str_eq(host, "mangakakalot.com") {
        Site::Mangakakalot
    } else if crate::cli::str_eq(host, "chapmanganato.com") {
        Site::Chapmanganato
    } else {
        Site::Unsupported
    }
}

} // verus!

verus! {

/// The site name of a URL given on the command line: its `/`-part number 2;
/// `None` when it has fewer parts.
pub fn site_name(url: &str) -> (r: Option<String>)
    ensures
        match r {
            Some(s) => 2 < crate::text::split_on(url@, '/').len() && s@ == crate::text::split_on(
                url@,
                '/',
            )[2],
            None => 2 >= crate::text::split_on(url@, '/').len(),
        },
{
    crate::text::nth_part(url, '/', 2)
}

} // verus!
