use rust_mangakakalot::commands::compress::{command as compress_command, Args as CompressArgs};
use rust_mangakakalot::globals::{dotted, EnvSettings, Globals};
use rust_mangakakalot::oldmain::{autocompress, clean_forced, command_for, compress_forced, download_skip, Command};
use rust_mangakakalot::cli::FlagError;
use rust_mangakakalot::utils::compress::{
    archive_path, book_dir, chapter_action, compress_options, ChapterAction, folder_size, get_last, is_ds_store, keep_existing_archive,
    path_replacer, zipped,
};

fn words(ws: &[&str]) -> Vec<String> {
    ws.iter().map(|w| w.to_string()).collect()
}

fn env() -> EnvSettings {
    EnvSettings { img_delay: None, output_dir: None, chapter_delay: None, zip_format: None, auto_compress: None }
}

#[test]
fn globals_default_when_nothing_is_set() {
    let args = words(&["p", "url"]);
    assert!(Globals::check(&args, &env()));
    let g = Globals::new(&args, &env());
    assert_eq!(g.img_delay, 100);
    assert_eq!(g.chapter_delay, 1000);
    assert_eq!(g.output_dir, "./output");
    assert_eq!(g.zip_format, ".zip");
    assert!(!g.auto_compress);
}

#[test]
fn globals_read_the_environment_and_format_flag() {
    let e = EnvSettings {
        img_delay: Some("5".to_string()),
        output_dir: Some("/tmp/o".to_string()),
        chapter_delay: Some("0".to_string()),
        zip_format: Some(".cbr".to_string()),
        auto_compress: Some("true".to_string()),
    };
    let g = Globals::new(&words(&["p", "url"]), &e);
    assert_eq!((g.img_delay, g.chapter_delay), (5, 0));
    assert_eq!(g.output_dir, "/tmp/o");
    assert_eq!(g.zip_format, ".cbr");
    assert!(g.auto_compress);
    let g = Globals::new(&words(&["p", "-f", "cbz", "--format", "zip"]), &e);
    assert_eq!(g.zip_format, ".cbz");
    let g = Globals::new(&words(&["p", "--format", ".tar"]), &env());
    assert_eq!(g.zip_format, ".tar");
}

#[test]
fn globals_refuse_unreadable_settings() {
    let mut e = env();
    e.img_delay = Some("fast".to_string());
    assert!(!Globals::check(&words(&["p"]), &e));
    let mut e = env();
    e.auto_compress = Some("yes".to_string());
    assert!(!Globals::check(&words(&["p"]), &e));
    assert!(!Globals::check(&words(&["p", "-f"]), &env()));
}

#[test]
fn formats_get_one_leading_dot() {
    assert_eq!(dotted("cbz"), ".cbz");
    assert_eq!(dotted(".cbz"), ".cbz");
    assert_eq!(dotted(""), ".");
    assert_eq!(dotted(&dotted("zip")), dotted("zip"));
    assert_eq!(compress_options(true, "cbz"), (true, ".cbz".to_string()));
    let r = compress_command(&CompressArgs { force: false, format: ".zip".to_string() });
    assert_eq!(r, (false, ".zip".to_string()));
}

#[test]
fn old_command_line_dispatch() {
    assert_eq!(command_for(&words(&["p"])), Command::Help);
    assert_eq!(command_for(&words(&["p", "-h"])), Command::Help);
    assert_eq!(command_for(&words(&["p", "help"])), Command::Help);
    assert_eq!(command_for(&words(&["p", "h"])), Command::Help);
    assert_eq!(command_for(&words(&["p", "compress", "-F"])), Command::Compress);
    assert_eq!(command_for(&words(&["p", "clean"])), Command::Clean);
    assert_eq!(command_for(&words(&["p", "https://x/y"])), Command::Download);
    assert!(clean_forced(&words(&["p", "clean", "-y"])));
    assert!(!clean_forced(&words(&["p", "clean"])));
    assert!(compress_forced(&words(&["p", "compress", "--force"])));
    assert!(!compress_forced(&words(&["p", "compress", "-f"])));
    assert!(autocompress(&words(&["p", "u", "-a"]), false));
    assert!(autocompress(&words(&["p", "u"]), true));
    assert!(!autocompress(&words(&["p", "u"]), false));
    assert_eq!(download_skip(&words(&["p", "u", "-s", "4"])), Ok(4));
    assert_eq!(download_skip(&words(&["p", "u"])), Ok(0));
    assert_eq!(download_skip(&words(&["p", "u", "--skip", "x"])), Err(FlagError::NotANumber));
}

#[test]
fn paths_are_moved_under_zipped() {
    assert_eq!(path_replacer(Some("output\\Book\\chapter_1")), Ok("output/Book/chapter_1".to_string()));
    assert_eq!(path_replacer(None), Err("Error reading path"));
    assert_eq!(get_last(Some("./output/Book")), Ok("Book".to_string()));
    assert_eq!(get_last(Some(".\\output\\Book")), Ok("Book".to_string()));
    assert_eq!(get_last(None), Err("Error reading path"));
    assert_eq!(book_dir("./output/Book"), "./zipped/Book");
    assert_eq!(zipped("./output/Book/chapter_1"), "./zipped/Book/chapter_1");
    assert_eq!(archive_path("./output/Book/chapter_1", ".cbz"), "./zipped/Book/chapter_1.cbz");
}

#[test]
fn slashed_paths_hold_no_backslash() {
    for p in ["a\\b\\c", "\\\\", "plain", ""] {
        let s = path_replacer(Some(p)).unwrap();
        assert!(!s.contains('\\'));
        let last = get_last(Some(p)).unwrap();
        assert!(!last.contains('/') && !last.contains('\\'));
    }
}

#[test]
fn archives_are_kept_only_when_larger() {
    assert_eq!(is_ds_store("./output/B/.DS_Store"), Some(true));
    assert_eq!(is_ds_store("./output/B/chapter_1"), Some(false));
    assert!(keep_existing_archive(false, true, 10, 5));
    assert!(!keep_existing_archive(true, true, 10, 5));
    assert!(!keep_existing_archive(false, false, 10, 5));
    assert!(!keep_existing_archive(false, true, 5, 5));
    assert_eq!(folder_size(&vec![1, 2, 3]), Some(6));
    assert_eq!(folder_size(&vec![]), Some(0));
    assert_eq!(folder_size(&vec![u64::MAX, 1]), None);
}

#[test]
fn chapter_action_skips_keeps_or_compresses() {
    let act = |p: &str, force: bool, exists: bool, z: u64, i: u64| chapter_action(p, ".cbz", force, exists, z, i);
    assert!(matches!(act("./output/B/.DS_Store", false, true, 10, 5), Some(ChapterAction::Skip)));
    match act("./output/B/chapter_1", false, true, 10, 5) {
        Some(ChapterAction::Keep { archive }) => assert_eq!(archive, "./zipped/B/chapter_1.cbz"),
        _ => panic!("expected the archive to be kept"),
    }
    match act("./output/B/chapter_1", true, true, 10, 5) {
        Some(ChapterAction::Compress { archive }) => assert_eq!(archive, "./zipped/B/chapter_1.cbz"),
        _ => panic!("expected compression"),
    }
    assert!(matches!(act("./output/B/chapter_1", false, true, 5, 5), Some(ChapterAction::Compress { .. })));
    assert!(matches!(act("./output/B/chapter_1", false, false, 10, 5), Some(ChapterAction::Compress { .. })));
}
