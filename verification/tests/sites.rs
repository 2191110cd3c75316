use rust_mangakakalot::address::host_of;
use rust_mangakakalot::chapmanganato::{check_url as check_chapmanganato, downloader as legacy_downloader, LegacyPlan, UrlCheck};
use rust_mangakakalot::commands::download::{command as download_command, Args as DownloadArgs, CommandError};
use rust_mangakakalot::commands::list::{command as list_command, list_page, page_file, Args as ListArgs, ListTarget};
use rust_mangakakalot::downloaders::downloader::PlanError;
use rust_mangakakalot::mangakakalot::{
    check_url as check_mangakakalot, downloader as mk_downloader, mangakakalot_get_imgs, read_chapter_links,
    MangakakalotError, SiteCheck,
};
use rust_mangakakalot::page::PageError;
use rust_mangakakalot::util::{site_for, site_name, Color, Site};

const CHAP_PAGE: &str = r#"<html><body><h1>My Manga</h1>
<ul class="row-content-chapter">
<li><a href="https://chapmanganato.com/manga-aa1/chapter-2">Chapter 2</a></li>
<li><a href="https://chapmanganato.com/manga-aa1/chapter-1">Chapter 1</a></li>
<li><a href="https://chapmanganato.com/manga-aa1/chapter-0">Chapter 0</a></li>
</ul></body></html>"#;

const MK_PAGE: &str = r#"<html><body><h1>AB123</h1>
<div class="chapter-list">
<a href="https://mangakakalot.com/chapter/ab123/chapter_2.5">2.5</a>
<a href="https://mangakakalot.com/chapter/ab123/chapter_1">1</a>
</div></body></html>"#;

const MK_READER: &str = r#"<div class="container-chapter-reader">
<img src="https://i.mk/1.jpg" alt="1"/>
<img src="https://i.mk/2.jpg" alt="2"/>
</div><div style="text-align:center;">end</div>"#;

fn words(ws: &[&str]) -> Vec<String> {
    ws.iter().map(|w| w.to_string()).collect()
}

fn download_args(url: &str) -> DownloadArgs {
    DownloadArgs {
        url: url.to_string(),
        skip: Some(2),
        autocompress: false,
        chapter: None,
        range: Some("1-2".to_string()),
        verbose: true,
        list: false,
        name: None,
    }
}

#[test]
fn colors_are_ansi_sequences() {
    let c = Color::new();
    assert_eq!(c.red, "\x1b[31m");
    assert_eq!(c.green, "\x1b[32m");
    assert_eq!(c.end, "\x1b[0m");
}

#[test]
fn sites_by_host() {
    assert_eq!(site_for("mangakakalot.com"), Site::Mangakakalot);
    assert_eq!(site_for("chapmanganato.com"), Site::Chapmanganato);
    assert_eq!(site_for("example.com"), Site::Unsupported);
    assert_eq!(site_name("https://chapmanganato.com/manga-x"), Some("chapmanganato.com".to_string()));
    assert_eq!(site_name("chapmanganato.com"), None);
}

#[test]
fn hosts_come_from_the_url_parser() {
    assert_eq!(host_of("https://Chapmanganato.com/manga-x"), Some("chapmanganato.com".to_string()));
    assert_eq!(host_of("not a url"), None);
    assert_eq!(host_of("mailto:someone@example.com"), None);
}

#[test]
fn download_command_reads_the_host() {
    match download_command(download_args("https://mangakakalot.com/manga/ab123")) {
        Ok((host, site, a)) => {
            assert_eq!(host, "mangakakalot.com");
            assert_eq!(site, Site::Mangakakalot);
            assert_eq!(a.url, "https://mangakakalot.com/manga/ab123");
            assert_eq!(a.skip, Some(2));
            assert_eq!(a.range, Some("1-2".to_string()));
            assert!(a.verbose);
        }
        Err(_) => panic!("expected a host"),
    }
    assert!(matches!(download_command(download_args("https://example.org/x")), Ok((_, Site::Unsupported, _))));
    assert!(matches!(download_command(download_args("nope")), Err(CommandError::BadUrl)));
    assert!(matches!(download_command(download_args("mailto:a@b.c")), Err(CommandError::NoHost)));
}

#[test]
fn list_command_picks_the_chapter_list_class() {
    let target = |u: &str| list_command(&ListArgs { url: u.to_string() });
    assert!(matches!(target("https://mangakakalot.com/manga/x"), ListTarget::Supported { class: "chapter-list", .. }));
    assert!(matches!(target("https://chapmanganato.com/manga-x"), ListTarget::Supported { class: "row-content-chapter", .. }));
    match target("https://example.org/x") {
        ListTarget::Unsupported { host } => assert_eq!(host, "example.org"),
        _ => panic!("expected an unsupported host"),
    }
    assert!(matches!(target("::"), ListTarget::NotAUrl));
    assert_eq!(page_file("My Manga"), "My Manga.html");
    let (t, links) = list_page(MK_PAGE, "chapter-list").unwrap();
    assert_eq!(t, "AB123");
    assert_eq!(links[0], "https://mangakakalot.com/chapter/ab123/chapter_1");
}

#[test]
fn chapmanganato_urls_are_checked() {
    match check_chapmanganato("https://chapmanganato.com/manga-aa1") {
        UrlCheck::Supported { url, host } => {
            assert_eq!(url, "https://chapmanganato.com/manga-aa1");
            assert_eq!(host, "chapmanganato.com");
        }
        _ => panic!("expected a supported url"),
    }
    assert!(matches!(check_chapmanganato("https://example.com/manga"), UrlCheck::Invalid));
    assert!(matches!(check_chapmanganato("no url"), UrlCheck::NotAUrl));
    assert!(matches!(check_chapmanganato("mailto:a@b.c"), UrlCheck::NoHost));
}

#[test]
fn legacy_chapmanganato_plans() {
    let url = "https://chapmanganato.com/manga-aa1";
    match legacy_downloader(url, CHAP_PAGE, &words(&["p", url, "-l"]), 0, "out") {
        Ok(LegacyPlan::List { urls, name_index }) => {
            assert_eq!(urls.len(), 3);
            assert_eq!(name_index, 4);
        }
        _ => panic!("expected a listing"),
    }
    match legacy_downloader(url, CHAP_PAGE, &words(&["p", url]), 1, "out") {
        Ok(LegacyPlan::Download { title, jobs, skipped, total, broken }) => {
            assert_eq!(title, "My Manga");
            assert_eq!((skipped, total, broken), (1, 3, false));
            let paths: Vec<String> = jobs.iter().map(|j| j.path.clone()).collect();
            assert_eq!(paths, vec!["out/My Manga/chapter-1", "out/My Manga/chapter-2"]);
            assert_eq!(jobs[0].label, "1");
        }
        _ => panic!("expected a download"),
    }
    match legacy_downloader(url, CHAP_PAGE, &words(&["p", url, "-c", "2"]), 5, "out") {
        Ok(LegacyPlan::Download { jobs, skipped, total, .. }) => {
            assert_eq!((skipped, total), (1, 1));
            assert!(jobs.is_empty());
        }
        _ => panic!("expected a download"),
    }
    assert!(matches!(legacy_downloader(url, CHAP_PAGE, &words(&["p", url, "-c", "3"]), 0, "out"), Err(PlanError::Selection)));
    assert!(matches!(legacy_downloader(url, "<p></p>", &words(&["p"]), 0, "out"), Err(PlanError::Page(PageError::NoTitle))));
}

#[test]
fn mangakakalot_urls_are_checked() {
    match check_mangakakalot("https://mangakakalot.com/manga/ab123") {
        SiteCheck::Checked { site, valid } => {
            assert_eq!(site, "mangakakalot.com");
            assert_eq!(valid, Some(true));
        }
        SiteCheck::NoSite => panic!("expected a site"),
    }
    assert!(matches!(check_mangakakalot("http://x"), SiteCheck::Checked { valid: Some(false), .. }));
    assert!(matches!(check_mangakakalot("abc"), SiteCheck::NoSite));
}

#[test]
fn mangakakalot_chapter_links() {
    let links = read_chapter_links("https://mangakakalot.com/manga/ab123", "AB123", MK_PAGE).ok().unwrap();
    assert_eq!(
        links,
        vec![
            "https://mangakakalot.com/chapter/ab123/chapter_1",
            "https://mangakakalot.com/chapter/ab123/chapter_2.5",
        ]
    );
    // without a `manga` part the key is the title in lower case
    let links = read_chapter_links("https://mangakakalot.com/read/x", "AB123", MK_PAGE).ok().unwrap();
    assert_eq!(links.len(), 2);
    let links = read_chapter_links("https://mangakakalot.com/read/x", "Other", MK_PAGE).ok().unwrap();
    assert!(links.is_empty());
    assert!(matches!(read_chapter_links("https://mangakakalot.com", "AB123", MK_PAGE), Err(MangakakalotError::ShortUrl)));
    assert!(matches!(read_chapter_links("https://mangakakalot.com/manga", "AB123", MK_PAGE), Err(MangakakalotError::ShortUrl)));
}

#[test]
fn mangakakalot_plans() {
    match mk_downloader("https://mangakakalot.com/manga/ab123", MK_PAGE, 0, "out") {
        Ok(p) => {
            assert_eq!(p.title, "AB123");
            assert_eq!((p.skipped, p.total, p.broken), (0, 2, false));
            let paths: Vec<String> = p.jobs.iter().map(|j| j.path.clone()).collect();
            assert_eq!(paths, vec!["out/chapter_1", "out/chapter_2.5"]);
            let labels: Vec<String> = p.jobs.iter().map(|j| j.label.clone()).collect();
            assert_eq!(labels, vec!["1", "2.5"]);
        }
        Err(_) => panic!("expected a plan"),
    }
    match mk_downloader("https://mangakakalot.com/manga/ab123", MK_PAGE, 9, "out") {
        Ok(p) => assert_eq!((p.skipped, p.jobs.len()), (2, 0)),
        Err(_) => panic!("expected a plan"),
    }
    assert!(matches!(mk_downloader("https://mangakakalot.com/manga/ab123", "<p>x</p>", 0, "out"), Err(MangakakalotError::NoTitle)));
}

#[test]
fn mangakakalot_images() {
    let imgs = mangakakalot_get_imgs(MK_READER).ok().unwrap();
    assert_eq!(imgs, vec!["https://i.mk/1.jpg", "https://i.mk/2.jpg"]);
    assert!(matches!(mangakakalot_get_imgs("<div>nothing</div>"), Err(MangakakalotError::NoImages)));
}
