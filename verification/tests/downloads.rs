use rust_mangakakalot::downloaders::chapmanganato::{
    chapmanganato, chapmanganato_get_imgs, finished_chapter_name,
};
use rust_mangakakalot::downloaders::downloader::{chapter_base_of, plan_download, Downloader, Plan, PlanError};
use rust_mangakakalot::downloaders::downloaders::{find_named, url_has_name, Args};
use rust_mangakakalot::downloaders::handlers::{copy_range, parse_range, select_chapters, selection_check};
use rust_mangakakalot::globals::Globals;
use rust_mangakakalot::page::{
    chapter_jobs, chapter_matches, image_file, image_number, image_sources, read_chapter_page, LabelRule, PageError,
};

const PAGE: &str = r#"<html><body><h1>My Manga</h1>
<ul class="row-content-chapter">
<li><a href="https://chapmanganato.com/manga-aa1/chapter-2">Chapter 2</a></li>
<li><a href="https://chapmanganato.com/manga-aa1/chapter-1.5">Chapter 1.5</a></li>
<li><a href="https://chapmanganato.com/manga-aa1/chapter-1">Chapter 1</a></li>
</ul></body></html>"#;

const READER: &str = r#"<html><body>
<div class="container-chapter-reader"><img src="https://img/1.jpg"><img src="https://img/2.jpg"></div>
<div class="other"><img src="https://img/x.jpg"></div>
</body></html>"#;

fn args() -> Args {
    Args {
        url: "https://chapmanganato.com/manga-aa1".to_string(),
        skip: None,
        chapter: None,
        range: None,
        verbose: false,
        list: false,
        name: None,
    }
}

fn globals() -> Globals {
    Globals {
        img_delay: 100,
        output_dir: "./output".to_string(),
        chapter_delay: 1000,
        zip_format: ".zip".to_string(),
        auto_compress: false,
    }
}

#[test]
fn page_gives_title_and_links_last_first() {
    let (title, links) = read_chapter_page(PAGE, "row-content-chapter").unwrap();
    assert_eq!(title, "My Manga");
    assert_eq!(
        links,
        vec![
            "https://chapmanganato.com/manga-aa1/chapter-1",
            "https://chapmanganato.com/manga-aa1/chapter-1.5",
            "https://chapmanganato.com/manga-aa1/chapter-2",
        ]
    );
}

#[test]
fn page_errors() {
    assert!(matches!(read_chapter_page("<p>no title</p>", "row-content-chapter"), Err(PageError::NoTitle)));
    assert!(matches!(read_chapter_page(PAGE, "missing-class"), Err(PageError::NoChapterList)));
    let no_href = r#"<h1>T</h1><ul class="c"><li><a>x</a></li></ul>"#;
    assert!(matches!(read_chapter_page(no_href, "c"), Err(PageError::MissingLink)));
}

#[test]
fn image_sources_per_container() {
    assert_eq!(
        image_sources(READER, "container-chapter-reader"),
        Some(vec![vec!["https://img/1.jpg".to_string(), "https://img/2.jpg".to_string()]])
    );
    assert_eq!(chapmanganato_get_imgs(READER), image_sources(READER, "container-chapter-reader"));
    assert_eq!(image_sources(r#"<div class="c"><img alt="a"></div>"#, "c"), None);
    assert_eq!(image_sources(READER, "none"), Some(vec![]));
}

#[test]
fn image_files_are_numbered_with_three_digits() {
    assert_eq!(image_file("out/t/chapter_1", 0), "out/t/chapter_1/000.jpg");
    assert_eq!(image_file("d", 42), "d/042.jpg");
    assert_eq!(image_file("d", 1234), "d/1234.jpg");
}

#[test]
fn chapter_labels_follow_the_rule() {
    let urls = vec!["https://x.com/m/chapter-12", "https://x.com/m/chapter-3.5", "https://x.com/m/extra"];
    let ms = chapter_matches("-([0-9]+\\.?[0-9]?)", LabelRule::RemoveDashes, &urls);
    let got: Vec<(String, String)> = ms.iter().map(|m| (m.matched.clone(), m.label.clone())).collect();
    assert_eq!(got, vec![("-12".to_string(), "12".to_string()), ("-3.5".to_string(), "3.5".to_string())]);
    let ms = chapter_matches("_[0-9]+", LabelRule::DropFirst, &vec!["a/chapter_7", "a/chapter_8"]);
    let labels: Vec<String> = ms.iter().map(|m| m.label.clone()).collect();
    assert_eq!(labels, vec!["7", "8"]);
    assert!(chapter_matches("(", LabelRule::DropFirst, &vec!["a/chapter_7"]).is_empty());
}

#[test]
fn jobs_go_under_the_base() {
    let urls = vec!["a/chapter_7", "a/chapter_8"];
    let jobs = chapter_jobs("_[0-9]+", LabelRule::DropFirst, &urls, "out/T/chapter_", true);
    let paths: Vec<String> = jobs.iter().map(|j| j.path.clone()).collect();
    assert_eq!(paths, vec!["out/T/chapter_7", "out/T/chapter_8"]);
    let jobs = chapter_jobs("_[0-9]+", LabelRule::DropFirst, &urls, "b/", false);
    assert_eq!(jobs[1].path, "b/_8");
    for j in &jobs {
        assert!(j.path.starts_with("b/"));
    }
    assert_eq!(chapter_base_of("./output", "T"), "./output/T/chapter_");
}

#[test]
fn chapmanganato_plans_every_chapter() {
    match chapmanganato(&args(), &globals(), PAGE) {
        Ok(Plan::Download { title, jobs, total, broken }) => {
            assert_eq!(title, "My Manga");
            assert_eq!(total, 3);
            assert!(!broken);
            let paths: Vec<String> = jobs.iter().map(|j| j.path.clone()).collect();
            assert_eq!(
                paths,
                vec![
                    "./output/My Manga/chapter_1",
                    "./output/My Manga/chapter_1.5",
                    "./output/My Manga/chapter_2",
                ]
            );
        }
        _ => panic!("expected a download plan"),
    }
}

#[test]
fn plan_lists_when_asked() {
    let mut a = args();
    a.list = true;
    match chapmanganato(&a, &globals(), PAGE) {
        Ok(Plan::List(v)) => assert_eq!(v.len(), 3),
        _ => panic!("expected a listing"),
    }
}

#[test]
fn plan_refuses_a_selection_that_does_not_fit() {
    let mut a = args();
    a.chapter = Some(3);
    assert!(matches!(chapmanganato(&a, &globals(), PAGE), Err(PlanError::Selection)));
    let mut a = args();
    a.range = Some("2-1".to_string());
    assert!(matches!(chapmanganato(&a, &globals(), PAGE), Err(PlanError::Selection)));
    assert!(matches!(chapmanganato(&args(), &globals(), "<p></p>"), Err(PlanError::Page(PageError::NoTitle))));
}

#[test]
fn downloader_labels_drop_the_first_character() {
    let mut a = args();
    a.skip = Some(1);
    let d = Downloader::new(
        a,
        "row-content-chapter".to_string(),
        "container-chapter-reader".to_string(),
        "-[0-9]+".to_string(),
        "https://chapmanganato.com/".to_string(),
        globals(),
    );
    match d.plan(PAGE) {
        Ok(Plan::Download { jobs, total, broken, .. }) => {
            assert_eq!(total, 2);
            assert!(!broken);
            let labels: Vec<String> = jobs.iter().map(|j| j.label.clone()).collect();
            assert_eq!(labels, vec!["1", "2"]);
        }
        _ => panic!("expected a download plan"),
    }
    assert_eq!(d.image_sources(READER).unwrap()[0].len(), 2);
}

#[test]
fn plan_reports_a_broken_run() {
    let page = r#"<h1>T</h1><div class="c"><a href="x/c-2"></a><a href="x/none"></a><a href="x/c-1"></a></div>"#;
    match plan_download(page, "c", &args(), "-[0-9]+", LabelRule::DropFirst, "o") {
        Ok(Plan::Download { jobs, total, broken, .. }) => {
            assert_eq!(total, 3);
            assert_eq!(jobs.len(), 1);
            assert!(broken);
            assert_eq!(jobs[0].path, "o/T/chapter_1");
        }
        _ => panic!("expected a download plan"),
    }
}

#[test]
fn selection_applies_skip_chapter_range_name() {
    let urls = vec!["m/c0", "m/c1", "m/c2", "m/c3", "m/c4"];
    let mut a = args();
    a.skip = Some(1);
    a.range = Some("1-3".to_string());
    assert!(selection_check(urls.len(), &a));
    assert_eq!(select_chapters(urls.clone(), &a), vec!["m/c2", "m/c3"]);
    a.name = Some(" c3 ".to_string());
    assert_eq!(select_chapters(urls.clone(), &a), vec!["m/c3"]);
    a.name = Some("c9".to_string());
    assert_eq!(select_chapters(urls.clone(), &a), Vec::<&str>::new());
    let mut b = args();
    b.skip = Some(6);
    assert!(!selection_check(urls.len(), &b));
    let mut b = args();
    b.range = Some("x-2".to_string());
    assert!(!selection_check(urls.len(), &b));
    assert_eq!(select_chapters(urls.clone(), &args()), urls);
}

#[test]
fn range_option_reads_two_numbers() {
    assert_eq!(parse_range("2-5"), Some((2, 5)));
    assert_eq!(parse_range("2-5-9"), Some((2, 5)));
    assert_eq!(parse_range("2"), None);
    assert_eq!(parse_range("a-5"), None);
    assert_eq!(copy_range(&vec!["a", "b", "c"], 1, 3), vec!["b", "c"]);
}

#[test]
fn names_match_trimmed_last_parts() {
    assert!(url_has_name("x/ chapter-1 ", &"chapter-1".chars().collect()));
    assert!(!url_has_name("x/chapter-1", &"chapter-2".chars().collect()));
    assert_eq!(find_named(&vec!["x/a", "x/b", "y/b"], "b"), Some(1));
    assert_eq!(find_named(&vec!["x/a"], "b"), None);
}

#[test]
fn finished_chapter_name_is_the_sixth_part() {
    assert_eq!(
        finished_chapter_name("https://chapmanganato.com/manga-aa1/x/chapter-1"),
        Some("chapter-1".to_string())
    );
    assert_eq!(finished_chapter_name("https://chapmanganato.com/manga-aa1"), None);
}

#[test]
fn image_files_never_collide() {
    let mut seen = std::collections::HashSet::new();
    for i in 0..1100 {
        assert!(seen.insert(image_file("d", i)));
    }
}

#[test]
fn image_numbers_have_three_digits() {
    assert_eq!(image_number(0), "000");
    assert_eq!(image_number(42), "042");
    assert_eq!(image_number(1234), "1234");
}

#[test]
fn name_shown_by_the_listing_selects_that_chapter() {
    let urls = vec!["m/chapter-1", "m/chapter-2", "m/chapter-10"];
    let shown = rust_mangakakalot::utils::list::list(urls.clone(), 80);
    for (k, e) in shown.iter().enumerate() {
        let nm = e.name.trim_end().to_string();
        assert_eq!(rust_mangakakalot::downloaders::downloaders::name(urls.clone(), nm), vec![urls[k]]);
    }
}
