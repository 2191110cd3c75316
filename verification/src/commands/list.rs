use vstd::prelude::*;

use crate::address::{parse_url, url_parts};
use crate::page::{chapter_page, read_chapter_page, PageError};
use crate::util::{site_for, site_spec, Site};

verus! {

/// List all chapters.
pub struct Args {
    pub url: String,
}

/// What listing a URL turns out to be.
pub enum ListTarget {
    /// The text is no URL, or a URL without a host.
    NotAUrl,
    /// The host is not a supported site.
    Unsupported { host: String },
    /// The host, and the class of the chapter list on its pages.
    Supported { host: String, class: &'static str },
}

/// The class of the chapter list on the pages of a site.
pub open spec fn list_class(site: Site) -> Option<Seq<char>> {
    match site {
        Site::Mangakakalot => Some("chapter-list"@),
        Site::Chapmanganato => Some("row-content-chapter"@),
        Site::Unsupported => None,
    }
}

/// Works out where the chapters of the manga at `args.url` are listed.
pub fn command(args: &Args) -> (r: ListTarget)
    ensures
        match url_parts(args.url@) {
            Some((_, Some(h))) => match list_class(site_spec(h)) {
                Some(c) => r matches ListTarget::Supported { host, class } && host@ == h && class@ == c,
                None => r matches ListTarget::Unsupported { host } && host@ == h,
            },
            _ => r is NotAUrl,
        },
{
    let host = match parse_url(args.url.as_str()) {
        Some((_, Some(h))) => h,
        _ => {
            return ListTarget::NotAUrl;
        },
    };
    match site_for(host.as_str()) {
        Site::Mangakakalot => ListTarget::Supported { host, class: "chapter-list" },
        Site::Chapmanganato => ListTarget::Supported { host, class: "row-content-chapter" },
        Site::Unsupported => ListTarget::Unsupported { host },
    }
}

/// The file that a listed page is saved to: its title with `.html`.
pub fn page_file(title: &str) -> (r: String)
    ensures
        r@ == title@ + ".html"@,
{
    let mut r = title.to_owned();
    r.append(".html");
    r
}

/// Reads the listed page: its title and its chapter links, last link first.
pub fn list_page(html: &str, class: &str) -> (r: Result<(String, Vec<String>), PageError>)
    ensures
        match r {
            Ok((t, us)) => chapter_page(html@, class@) == Ok::<(Seq<char>, Seq<Seq<char>>), PageError>((t@, us.deep_view())),
            Err(e) => chapter_page(html@, class@) == Err::<(Seq<char>, Seq<Seq<char>>), PageError>(e),
        },
{
    read_chapter_page(html, class)
}

} // verus!
