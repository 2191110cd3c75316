use rust_mangakakalot::listing::{last_part_lengths, layout, part_lengths, ListEntry};

fn shown(r: &[ListEntry]) -> Vec<(bool, String, String)> {
    r.iter().map(|e| (e.line_break, e.label.clone(), e.name.clone())).collect()
}

#[test]
fn utils_list_lays_out_one_per_line_when_two_fit() {
    let urls = vec!["a/ch-1", "a/ch-2", "a/ch-3"];
    let r = rust_mangakakalot::utils::list::list(urls, 100);
    assert_eq!(
        shown(&r),
        vec![
            (false, "000".to_string(), "ch-1     ".to_string()),
            (true, "001".to_string(), "ch-2     ".to_string()),
            (true, "002".to_string(), "ch-3     ".to_string()),
        ]
    );
}

#[test]
fn narrow_terminal_breaks_once_before_the_first_entry() {
    let urls = vec!["a/ch-1", "a/ch-2", "a/ch-3"];
    let r = rust_mangakakalot::handlers::list::list(urls, 10);
    let breaks: Vec<bool> = r.iter().map(|e| e.line_break).collect();
    assert_eq!(breaks, vec![true, false, false]);
}

#[test]
fn wide_terminal_puts_half_of_what_fits_on_a_line() {
    // each entry counts 1 + 3 columns; all 9 fit in 40, so 4 go on a line
    let urls = vec!["a/1", "a/2", "a/3", "a/4", "a/5", "a/6", "a/7", "a/8", "a/9"];
    let r = rust_mangakakalot::utils::list::list(urls, 40);
    let breaks: Vec<usize> = r.iter().enumerate().filter(|(_, e)| e.line_break).map(|(k, _)| k).collect();
    assert_eq!(breaks, vec![4, 8]);
    assert_eq!(r[8].label, "008");
    assert_eq!(r[0].name, "1     ");
}

#[test]
fn repeated_urls_share_the_label_of_the_first() {
    let urls = vec!["a/x", "a/y", "a/x"];
    let r = rust_mangakakalot::utils::list::list(urls, 80);
    let labels: Vec<String> = r.iter().map(|e| e.label.clone()).collect();
    assert_eq!(labels, vec!["000", "001", "000"]);
}

#[test]
fn label_points_back_to_the_entry() {
    let urls = vec!["m/c-1", "m/c-2", "m/c-3", "m/c-4"];
    let r = rust_mangakakalot::utils::list::list(urls.clone(), 80);
    for (k, e) in r.iter().enumerate() {
        let at: usize = e.label.parse().unwrap();
        assert_eq!(urls[at], urls[k]);
    }
}

#[test]
fn flags_list_measures_the_chosen_part() {
    // part 2 has 10 bytes in each URL: 10 + 5 columns each, 6 fit in 90
    let urls = vec!["h:/x/abcdefghij/c1", "h:/x/abcdefghij/c2", "h:/x/abcdefghij/c3"];
    let r = rust_mangakakalot::flags::list(urls, 2, 90);
    assert_eq!(r[0].name, format!("{:15}", "c1"));
    let breaks: Vec<bool> = r.iter().map(|e| e.line_break).collect();
    assert_eq!(breaks, vec![false, true, true]);
}

#[test]
fn measures_count_bytes() {
    let urls = vec!["a/é", "b/cd/e"];
    assert_eq!(last_part_lengths(&urls), vec![2, 1]);
    assert_eq!(part_lengths(&urls, 1), vec![2, 2]);
}

#[test]
fn layout_pads_names_to_average_plus_five() {
    let urls = vec!["x/ab", "x/abcdef"];
    let ms = vec![2, 6];
    let r = layout(&urls, &ms, 3, 100);
    assert_eq!(r[0].name, format!("{:9}", "ab"));
    assert_eq!(r[1].name, format!("{:9}", "abcdef"));
    assert!(r[1].line_break);
}
