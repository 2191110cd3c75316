use rust_mangakakalot::downloaders::downloaders::{name, Args};
use rust_mangakakalot::downloaders::handlers::{chapter_handler, range, skip};

fn args() -> Args {
    Args {
        url: "https://chapmanganato.com/manga-aa951409".to_string(),
        skip: None,
        chapter: None,
        range: None,
        verbose: false,
        list: false,
        name: None,
    }
}

#[test]
fn skip_drops_first_chapters() {
    let urls = vec!["a/1", "a/2", "a/3"];
    let mut a = args();
    a.skip = Some(2);
    assert_eq!(skip(urls, a), vec!["a/3"]);
}

#[test]
fn chapter_keeps_one() {
    let urls = vec!["a/1", "a/2", "a/3"];
    let mut a = args();
    a.chapter = Some(1);
    assert_eq!(chapter_handler(urls, a), vec!["a/2"]);
}

#[test]
fn range_keeps_run() {
    let urls = vec!["a/1", "a/2", "a/3", "a/4"];
    let mut a = args();
    a.range = Some("1-3".to_string());
    assert_eq!(range(urls, a), vec!["a/2", "a/3"]);
}

#[test]
fn name_finds_first_trimmed() {
    let urls = vec!["x/chapter-1", "x/chapter-2", "y/chapter-2"];
    assert_eq!(name(urls, " chapter-2 ".to_string()), vec!["x/chapter-2"]);
    let urls = vec!["x/chapter-1"];
    assert_eq!(name(urls, "nope".to_string()), Vec::<&str>::new());
}
