use rust_mangakakalot::cli::{
    check_values_usize, collect_flag_values, find_last_value, first_flag, has_any, has_flag,
    is_flag_arg, skip_from_args, str_eq, FlagError,
};
use rust_mangakakalot::handlers::flags::{
    chapter, chapter_number, find_with_name, name, range, range_numbers, select_by_flags,
};

fn words(ws: &[&str]) -> Vec<String> {
    ws.iter().map(|w| w.to_string()).collect()
}

#[test]
fn flags_match_short_or_long_form() {
    assert!(str_eq("-c", "-c"));
    assert!(!str_eq("-c", "-cc"));
    assert!(is_flag_arg("-c", "-c", "--chapter"));
    assert!(is_flag_arg("--chapter", "-c", "--chapter"));
    assert!(!is_flag_arg("--chap", "-c", "--chapter"));
    let args = words(&["prog", "url", "--skip", "3"]);
    assert!(has_flag(&args, "-s", "--skip"));
    assert!(!has_flag(&args, "-c", "--chapter"));
    assert_eq!(first_flag(&args, "-s", "--skip"), Some(2));
    assert_eq!(first_flag(&args, "-c", "--chapter"), None);
    assert!(has_any(&args, "-x", "--x", "-s", "--skip"));
    assert!(!has_any(&args, "-x", "--x", "-y", "--y"));
}

#[test]
fn values_are_collected_per_occurrence() {
    let args = words(&["p", "-r", "1", "4", "x", "--range", "2"]);
    let occ = collect_flag_values(&args, "-r", "--range", 2);
    assert_eq!(occ, vec![words(&["1", "4"]), words(&["2"])]);
    assert_eq!(find_last_value(&occ, 0), Some(&"2".to_string()));
    assert_eq!(find_last_value(&occ, 1), Some(&"4".to_string()));
    assert_eq!(find_last_value(&occ, 2), None);
    assert!(check_values_usize(&occ, 0));
    let bad = collect_flag_values(&words(&["p", "-r", "a", "4"]), "-r", "--range", 2);
    assert!(!check_values_usize(&bad, 0));
    assert!(check_values_usize(&bad, 1));
}

#[test]
fn skip_reads_the_last_value() {
    assert_eq!(skip_from_args(&words(&["p", "u"]), "--skip", "--skip"), Ok(0));
    assert_eq!(skip_from_args(&words(&["p", "u", "--skip", "5"]), "--skip", "--skip"), Ok(5));
    assert_eq!(skip_from_args(&words(&["p", "--skip", "1", "--skip", "9"]), "--skip", "--skip"), Ok(9));
    assert_eq!(skip_from_args(&words(&["p", "--skip", "x"]), "--skip", "--skip"), Err(FlagError::NotANumber));
    assert_eq!(skip_from_args(&words(&["p", "--skip", "-1"]), "--skip", "--skip"), Err(FlagError::NotANumber));
    assert_eq!(skip_from_args(&words(&["p", "--skip"]), "--skip", "--skip"), Ok(0));
}

#[test]
fn chapter_flag_keeps_one_chapter() {
    let urls = vec!["u/0", "u/1", "u/2"];
    assert_eq!(chapter_number(&words(&["p", "-c", "2"])), Ok(Some(2)));
    assert_eq!(chapter_number(&words(&["p"])), Ok(None));
    assert_eq!(chapter_number(&words(&["p", "--chapter", "two"])), Err(FlagError::NotANumber));
    assert_eq!(chapter(urls.clone(), &words(&["p", "-c", "1"])), vec!["u/1"]);
    assert_eq!(chapter(urls, &words(&["p"])), vec!["u/0", "u/1", "u/2"]);
}

#[test]
fn range_flag_keeps_a_run() {
    let urls = vec!["u/0", "u/1", "u/2", "u/3"];
    assert_eq!(range_numbers(&words(&["p", "-r", "1", "3"])), Ok((Some(1), Some(3))));
    assert_eq!(range_numbers(&words(&["p", "-r", "1"])), Ok((Some(1), None)));
    assert_eq!(range_numbers(&words(&["p", "-r", "1", "z"])), Err(FlagError::NotANumber));
    assert_eq!(range(urls.clone(), &words(&["p", "-r", "1", "3"])), vec!["u/1", "u/2"]);
    assert_eq!(range(urls.clone(), &words(&["p", "--range", "2"])), vec!["u/2", "u/3"]);
    assert_eq!(range(urls, &words(&["p"])).len(), 4);
}

#[test]
fn name_flag_matches_the_shown_name() {
    let urls = vec![
        "https://m.com/t/chapter-1",
        "https://m.com/t/chapter-2",
        "https://m.com/t/chapter-2",
    ];
    assert_eq!(find_with_name(&urls, &"chapter-2".chars().collect()), Some(1));
    assert_eq!(find_with_name(&urls, &"chapter-9".chars().collect()), None);
    assert_eq!(find_with_name(&vec!["short/url"], &"x".chars().collect()), None);
    assert_eq!(find_with_name(&vec!["short/url"], &"url".chars().collect()), Some(0));
    // the name is the last part, whatever part number 4 holds
    assert_eq!(name(vec!["////v/a", "////b/v"], &words(&["p", "-n", "v"])), vec!["////b/v"]);
    assert_eq!(
        name(urls.clone(), &words(&["p", "-n", "chapter-2"])),
        vec!["https://m.com/t/chapter-2"]
    );
    assert_eq!(name(urls, &words(&["p"])).len(), 3);
}

#[test]
fn flags_apply_in_turn() {
    let urls = vec![
        "https://m.com/t/c0",
        "https://m.com/t/c1",
        "https://m.com/t/c2",
        "https://m.com/t/c3",
    ];
    assert_eq!(
        select_by_flags(urls.clone(), &words(&["p", "-r", "1", "4", "-n", "c2"])),
        Some(vec!["https://m.com/t/c2"])
    );
    assert_eq!(select_by_flags(urls.clone(), &words(&["p", "-c", "3"])), Some(vec!["https://m.com/t/c3"]));
    assert_eq!(select_by_flags(urls.clone(), &words(&["p", "-c", "4"])), None);
    assert_eq!(select_by_flags(urls.clone(), &words(&["p", "-c", "x"])), None);
    assert_eq!(select_by_flags(urls.clone(), &words(&["p", "-r", "3", "2"])), None);
    assert_eq!(select_by_flags(urls.clone(), &words(&["p", "-n", "c9"])), None);
    assert_eq!(select_by_flags(urls.clone(), &words(&["p"])), Some(urls));
}

#[test]
fn flag_selection_is_a_run_of_the_page() {
    let urls = vec!["h://x/m/c0", "h://x/m/c1", "h://x/m/c2", "h://x/m/c3", "h://x/m/c4"];
    for ws in [&["p", "-r", "1", "4"][..], &["p", "-r", "2"][..], &["p", "-c", "3"][..], &["p", "-r", "0", "5", "-n", "c3"][..], &["p"][..]] {
        let picked = select_by_flags(urls.clone(), &words(ws)).unwrap();
        let start = urls.iter().position(|u| Some(u) == picked.first()).unwrap_or(0);
        assert_eq!(&urls[start..start + picked.len()], &picked[..]);
    }
}

#[test]
fn name_shown_by_the_listing_picks_that_chapter() {
    let urls = vec!["h://x/m/ch-1", "h://x/m/ch-2", "h://x/m/ch-3"];
    let shown = rust_mangakakalot::flags::list(urls.clone(), 4, 80);
    for (k, e) in shown.iter().enumerate() {
        let nm = e.name.trim_end().to_string();
        assert_eq!(name(urls.clone(), &words(&["p", "-n", &nm])), vec![urls[k]]);
    }
}
