use vstd::prelude::*;

use crate::address::{parse_url, url_parts};
use crate::util::{site_for, site_spec, Site};

verus! {

/// Download a manga from mangakakalot or chapmanganato.
pub struct Args {
    /// The URL of the manga to download.
    pub url: String,
    /// Skip the first n chapters.
    pub skip: Option<u32>,
    /// Autocompress.
    pub autocompress: bool,
    /// Download a specific chapter n.
    pub chapter: Option<u32>,
    /// Download a specific range of chapters n-m.
    pub range: Option<String>,
    /// Verbose output.
    pub verbose: bool,
    /// List all chapters.
    pub list: bool,
    /// Name of the chapter.
    pub name: Option<String>,
}

/// Why a download cannot start.
#[derive(Debug, PartialEq, Eq, Structural)]
pub enum CommandError {
    /// "Failed to parse URL".
    BadUrl,
    /// "Failed to get hostname".
    NoHost,
}

/// The options of the download that the downloaders take.
pub open spec fn downloader_args(args: Args) -> crate::downloaders::downloaders::Args {
    crate::downloaders::downloaders::Args {
        url: args.url,
        skip: args.skip,
        chapter: args.chapter,
        range: args.range,
        verbose: args.verbose,
        list: args.list,
        name: args.name,
    }
}

/// Starts a download: the host of the URL, its site, and the options the
/// downloaders take.
pub fn command(args: Args) -> (r: Result<(String, Site, crate::downloaders::downloaders::Args), CommandError>)
    ensures
        match url_parts(args.url@) {
            None => r matches Err(CommandError::BadUrl),
            Some((_, None)) => r matches Err(CommandError::NoHost),
            Some((_, Some(h))) => r matches Ok((host, site, dargs)) && host@ == h && site
                == site_spec(h) && dargs == downloader_args(args),
        },
{
    let host = match parse_url(args.url.as_str()) {
        None => {
            return Err(CommandError::BadUrl);
        },
        Some((_, None)) => {
            return Err(CommandError::NoHost);
        },
        Some((_, Some(h))) => h,
    };
    let site = site_for(host.as_str());
    let dargs = crate::downloaders::downloaders::Args {
        url: args.url,
        skip: args.skip,
        chapter: args.chapter,
        range: args.range,
        verbose: args.verbose,
        list: args.list,
        name: args.name,
    };
    Ok((host, site, dargs))
}

} // verus!

verus! {

/// A download starts with the options it was given: the downloader gets the
/// same URL, skip, chapter, range, verbosity, listing and name, and the site
/// is the one the host names.
pub proof fn lemma_options_handed_on(
    args: Args,
    r: Result<(String, Site, crate::downloaders::downloaders::Args), CommandError>,
)
    requires
        match url_parts(args.url@) {
            None => r matches Err(CommandError::BadUrl),
            Some((_, None)) => r matches Err(CommandError::NoHost),
            Some((_, Some(h))) => r matches Ok((host, site, dargs)) && host@ == h && site
                == site_spec(h) && dargs == downloader_args(args),
        },
    ensures
        r matches Ok((host, site, d)) ==> {
            &&& d.url == args.url
            &&& d.skip == args.skip
            &&& d.chapter == args.chapter
            &&& d.range == args.range
            &&& d.verbose == args.verbose
            &&& d.list == args.list
            &&& d.name == args.name
            &&& (host@ == "chapmanganato.com"@ <==> site == Site::Chapmanganato)
            &&& (host@ == "mangakakalot.com"@ <==> site == Site::Mangakakalot)
        },
{
    reveal_strlit("chapmanganato.com");
    reveal_strlit("mangakakalot.com");
    assert("chapmanganato.com"@ != "mangakakalot.com"@ ) by {
        assert("chapmanganato.com"@[0] != "mangakakalot.com"@[0]);
    }
}

} // verus!
