use blitz::blacklist::{Blacklist, Moron};
use blitz::fuzzy::ratio;
use blitz::layout::{crop_and_save_player_cards_dynamic, crop_player_cards_1920_1080, GridLayout, LayoutError, Region};
use blitz::scan::{aggregate, similar_scans, ScanInfo, SHOW_THRESHOLD};
use blitz::text::{char_count, normalize, text_lines};
use blitz::window::{find_window, risk_window};

fn known(names: &[&str]) -> Blacklist {
    Blacklist {
        morons: names
            .iter()
            .map(|n| Moron { username: n.to_string(), reason: String::from("spam") })
            .collect(),
    }
}

fn lines(v: &[&str]) -> Vec<String> {
    v.iter().map(|s| s.to_string()).collect()
}

#[test]
fn normalize_strips_prefix_case_and_spaces() {
    assert_eq!(normalize("General Smith"), normalize("smith"));
    assert_eq!(normalize("General Smith"), "smith");
    assert_eq!(normalize("  Bad  Actor "), "badactor");
    assert_eq!(normalize(""), "");
}

#[test]
fn normalize_prefix_must_match_exactly() {
    assert_ne!(normalize("GeneralissimoX"), normalize("issimox"));
    assert_eq!(normalize("GeneralissimoX"), "generalissimox");
    assert_eq!(normalize("general Smith"), "generalsmith");
}

#[test]
fn normalize_twice_is_normalize_once() {
    for s in ["General Bad Actor", "General General X", "  a B c ", "General ", "ÀB C", ""] {
        let once = normalize(s);
        assert_eq!(normalize(&once), once);
    }
}

#[test]
fn ratio_identity_and_bounds() {
    for k in ["a", "badactor", "x1y2z3"] {
        assert_eq!(ratio(k, k), 100);
    }
    for (a, b) in [("abc", "xyz"), ("badactor", "badactr"), ("", "abc"), ("abc", "")] {
        assert!(ratio(a, b) <= 100);
    }
    assert_eq!(ratio("abc", "xyz"), 0);
    assert_eq!(ratio("abcd", "abce"), 75);
}

#[test]
fn ratio_of_non_ascii_keys() {
    assert_eq!(ratio("élan", "élan"), 100);
    assert_eq!(ratio("zoe", "zoë"), 57);
    assert_eq!(ratio("zoë", "zoe"), 57);
    assert_eq!(ratio("zoë", "abcdefgh"), 0);
    assert_eq!(ratio("élan", "elan"), 67);
}

#[test]
fn cards_tile_a_divisible_box() {
    let layout = GridLayout { list_width: 1200, list_height: 540, rows: 3, cols: 2, card_width: 600, card_height: 180 };
    let regions = crop_and_save_player_cards_dynamic(&layout, 1200, 540).unwrap();
    assert_eq!(regions.len(), 6);
    assert_eq!(regions[0], Region { x: 0, y: 0, width: 600, height: 180 });
    assert_eq!(regions[5], Region { x: 600, y: 360, width: 600, height: 180 });
    let mut covered = vec![0u32; 1200 * 540];
    for r in &regions {
        for y in r.y..r.y + r.height {
            for x in r.x..r.x + r.width {
                covered[(y * 1200 + x) as usize] += 1;
            }
        }
    }
    assert!(covered.iter().all(|c| *c == 1));
}

#[test]
fn reference_screen_regions() {
    let regions = crop_player_cards_1920_1080(1920, 1080).unwrap();
    assert_eq!(regions.len(), 6);
    assert_eq!(regions[0], Region { x: 360, y: 265, width: 600, height: 180 });
    assert_eq!(regions[3], Region { x: 960, y: 445, width: 600, height: 180 });
    assert_eq!(regions[5], Region { x: 960, y: 625, width: 600, height: 180 });
    assert_eq!(
        GridLayout::reference(),
        GridLayout { list_width: 1200, list_height: 550, rows: 3, cols: 2, card_width: 600, card_height: 180 }
    );
    let boxed = crop_player_cards_1920_1080(1200, 550).unwrap();
    assert_eq!(boxed[0], Region { x: 0, y: 0, width: 600, height: 180 });
    assert_eq!(boxed[5], Region { x: 600, y: 360, width: 600, height: 180 });
}

#[test]
fn small_image_is_a_layout_error() {
    assert_eq!(
        crop_player_cards_1920_1080(1000, 1080),
        Err(LayoutError { image_width: 1000, image_height: 1080 })
    );
    assert_eq!(
        crop_player_cards_1920_1080(1920, 549),
        Err(LayoutError { image_width: 1920, image_height: 549 })
    );
    assert!(crop_player_cards_1920_1080(1200, 550).is_ok());
    let huge = crop_player_cards_1920_1080(u32::MAX, u32::MAX).unwrap();
    assert_eq!(huge[5], Region { x: 2147483047 + 600, y: 2147483372 + 360, width: 600, height: 180 });
}

#[test]
fn empty_grid_has_no_cards() {
    let layout = GridLayout { list_width: 100, list_height: 100, rows: 0, cols: 2, card_width: 50, card_height: 50 };
    assert_eq!(crop_and_save_player_cards_dynamic(&layout, 100, 100), Ok(vec![]));
}

#[test]
fn non_ascii_name_is_scored_against_ascii_text() {
    let bl = known(&["Zoë"]);
    let r = aggregate(&lines(&["Zoe"]), &bl);
    assert_eq!(r.len(), 1);
    assert_eq!(r[0].username, "Zoë");
    assert_eq!(r[0].similarity, 57);
}

#[test]
fn short_detections_give_nothing() {
    let bl = known(&["Bad Actor", "Other"]);
    assert!(aggregate(&lines(&["", "x", "General Q", "General ", " Z "]), &bl).is_empty());
}

#[test]
fn cross_product_of_two_lines_and_three_names() {
    let bl = known(&["Bad Actor", "Someone", "Third"]);
    let r = aggregate(&lines(&["bad actor", "", "someone else"]), &bl);
    assert_eq!(r.len(), 6);
    let names: Vec<&str> = r.iter().map(|s| s.username.as_str()).collect();
    assert_eq!(names, vec!["Bad Actor", "Someone", "Third", "Bad Actor", "Someone", "Third"]);
    assert_eq!(r[0].similarity, 100);
}

#[test]
fn general_prefix_line_matches_fully() {
    let bl = known(&["Bad Actor"]);
    let r = aggregate(&lines(&["General Bad Actor"]), &bl);
    assert_eq!(r.len(), 1);
    assert_eq!(r[0].username, "Bad Actor");
    assert_eq!(r[0].similarity, 100);
}

#[test]
fn unrelated_line_scores_low_and_is_not_shown() {
    let bl = known(&["Bad Actor"]);
    let r = aggregate(&lines(&["xyz"]), &bl);
    assert_eq!(r.len(), 1);
    assert!(r[0].similarity < 70);
    assert!(similar_scans(&r, SHOW_THRESHOLD).is_empty());
}

#[test]
fn shown_results_are_filtered_and_sorted() {
    let scans = vec![
        ScanInfo { username: "a".to_string(), similarity: 70 },
        ScanInfo { username: "b".to_string(), similarity: 69 },
        ScanInfo { username: "c".to_string(), similarity: 95 },
        ScanInfo { username: "d".to_string(), similarity: 70 },
        ScanInfo { username: "e".to_string(), similarity: 100 },
    ];
    let shown = similar_scans(&scans, 70);
    let got: Vec<(&str, u8)> = shown.iter().map(|s| (s.username.as_str(), s.similarity)).collect();
    assert_eq!(got, vec![("e", 100), ("c", 95), ("a", 70), ("d", 70)]);
}

#[test]
fn recognized_text_is_cut_into_lines() {
    assert_eq!(text_lines("Bad Actor\nGeneral X\n"), vec!["Bad Actor", "General X", ""]);
    assert_eq!(text_lines(""), vec![""]);
    assert_eq!(char_count("héllo"), 5);
}

#[test]
fn first_window_with_exact_title() {
    let titles = lines(&["RISK - lobby", "Editor", "RISK", "RISK"]);
    assert_eq!(risk_window(&titles), Some(2));
    assert_eq!(find_window(&titles, "Editor"), Some(1));
    assert_eq!(find_window(&titles, "risk"), None);
    assert_eq!(risk_window(&lines(&[])), None);
}

#[test]
fn default_blacklist_has_two_examples() {
    let bl = Blacklist::default();
    assert_eq!(bl.morons.len(), 2);
    assert_eq!(bl.morons[0].username, "Example User #1");
    assert_eq!(bl.morons[1].reason, "Don't forget the comma at the end of the block.");
}
