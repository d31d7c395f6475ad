use giter::drawer::app::{Counts, Deployed, Filter, Input, NoteKind, NsRow, RefKind, Screen};
use giter::drawer::layout::{
    chip, container_list_height, count_of, deployed_cells, deployed_title, family_heading,
    filter_chips, flexible, fraction, fresh_text, gap, help_keys, hit, key_hints, legend,
    matched_parts, narrow_name_width, note_glyph, note_hint, note_room, pod_name_cells,
    pod_name_width, position_text, progress_cells, reference_title, room, split_name, summary,
    first_deployed,
    tally, too_small, too_small_text, totals, PodNameCells, CURSOR, DEPLOYED, GAP, GLYPH,
    PODS, PROGRESS_WIDTH, REFERENCE,
};
use giter::remote::Verdict;
use ratatui::layout::{Constraint, Layout, Rect};

fn row(deployed: Vec<Deployed>, hidden: usize) -> NsRow {
    NsRow {
        name: "orchard-gateway".to_string(),
        prefix: 0,
        verdict: Verdict::Behind,
        pods: Some(9),
        deployed,
        hidden_deployed: hidden,
        reference: "4f1c0f2c".to_string(),
        note: "3 of 9 pods behind".to_string(),
    }
}

fn group(label: &str, count: usize) -> Deployed {
    Deployed {
        label: label.to_string(),
        count,
        verdict: Verdict::Behind,
    }
}

fn width_of(row: &NsRow) -> usize {
    deployed_cells(row).iter().map(|cell| cell.chars().count()).sum()
}

/// What the table hands each column at a given table width: it takes the cursor column off
/// the top and lays the rest out itself.
fn laid_out(total: u16) -> Vec<u16> {
    let (name, _) = flexible(total);
    let area = Rect::new(0, 0, total.saturating_sub(CURSOR), 1);

    Layout::horizontal([
        Constraint::Length(GLYPH),
        Constraint::Length(name as u16),
        Constraint::Length(PODS),
        Constraint::Length(DEPLOYED),
        Constraint::Length(REFERENCE),
        Constraint::Fill(1),
    ])
    .spacing(GAP)
    .split(area)
    .iter()
    .map(|column| column.width)
    .collect()
}

#[test]
fn a_line_of_two_halves_fills_the_width_it_is_given() {
    let width = 40;
    let used = "● 13 in sync".chars().count() + "idle".chars().count();

    assert_eq!(used + gap(used, width), width);
}

#[test]
fn halves_that_do_not_fit_are_still_kept_apart() {
    let used = "cannot list pods: forbidden".chars().count() + "r retry".chars().count();

    assert!(gap(used, 20) >= 1);
}

#[test]
fn progress_of_nothing_does_not_divide_by_zero() {
    let (filled, empty) = progress_cells(0, 0);

    assert_eq!(filled + empty, PROGRESS_WIDTH);
}

#[test]
fn progress_bar_keeps_its_width_as_it_fills() {
    let (filled, empty) = progress_cells(7, 19);

    assert_eq!(filled + empty, PROGRESS_WIDTH);
}

#[test]
fn name_column_is_exactly_as_wide_as_the_names_are_cut_to() {
    let disagreements: Vec<u16> = (60..=200)
        .filter(|total| laid_out(*total)[1] as usize != flexible(*total).0)
        .collect();

    assert!(disagreements.is_empty(), "{:?}", disagreements);
}

#[test]
fn two_commits_fill_the_column() {
    let listed = row(vec![group("4f1c0f2c", 17), group("91bd7e40", 4)], 0);

    assert!(width_of(&listed) <= DEPLOYED as usize);
}

#[test]
fn commits_give_up_room_to_the_count_of_those_left_out() {
    let listed = row(vec![group("4f1c0f2c", 5), group("91bd7e40", 3)], 3);

    assert!(width_of(&listed) <= DEPLOYED as usize);
}

#[test]
fn commits_left_out_are_counted_at_the_end() {
    let listed = row(vec![group("4f1c0f2c", 5), group("91bd7e40", 3)], 3);
    let cells = deployed_cells(&listed);

    assert_eq!(cells.last().cloned(), Some("+3".to_string()));
}

// ---------------------------------------------------------------------------------------

#[test]
fn deployed_cells_are_padded_to_the_same_width() {
    let listed = row(vec![group("4f1c0f2c", 17), group("91bd7e40", 1)], 0);
    let cells = deployed_cells(&listed);

    assert_eq!(cells, vec!["4f1c0f2c ×17   ".to_string(), "91bd7e40       ".to_string()]);
}

#[test]
fn a_long_label_is_cut_with_an_ellipsis() {
    let listed = row(vec![group("v3.7.1-release-candidate", 2), group("x", 1)], 12);
    let cells = deployed_cells(&listed);

    assert_eq!(cells[0], "v3.7.1-releas… ");
    assert_eq!(cells[1], "x          ");
    assert_eq!(cells[2], "+12");
}

#[test]
fn progress_fills_in_proportion() {
    assert_eq!(progress_cells(7, 19), (7, 13));
    assert_eq!(progress_cells(19, 19), (20, 0));
    assert_eq!(progress_cells(0, 5), (0, 20));
}

#[test]
fn gap_is_what_the_halves_leave() {
    assert_eq!(gap(10, 40), 30);
    assert_eq!(gap(40, 40), 1);
    assert_eq!(gap(50, 40), 1);
}

#[test]
fn notes_offer_only_what_they_can_do() {
    assert_eq!(note_hint(true, true), "r retry");
    assert_eq!(note_hint(true, false), "r retry · esc dismiss");
    assert_eq!(note_hint(false, true), "");
    assert_eq!(note_hint(false, false), "esc dismiss");
    assert_eq!(note_room(80, true, false), 80 - "r retry · esc dismiss".len() - 4);
    assert_eq!(note_room(10, true, false), 0);
    assert_eq!(note_glyph(NoteKind::Done), '✓');
    assert_eq!(note_glyph(NoteKind::Warn), '!');
    assert_eq!(note_glyph(NoteKind::Error), '✗');
    assert_eq!(room(30, 10), 16);
    assert_eq!(room(12, 10), 0);
}

#[test]
fn key_line_depends_on_what_is_going_on() {
    assert_eq!(
        key_hints(Input::Search, Screen::Detail, true),
        vec![("enter", "keep"), ("esc", "clear"), ("↑↓", "move")]
    );
    assert_eq!(key_hints(Input::Normal, Screen::Overview, false).len(), 9);
    assert_eq!(key_hints(Input::Normal, Screen::Detail, false)[1], ("←→", "pane"));
    assert_eq!(key_hints(Input::Help, Screen::Overview, true).last(), Some(&("q", "quit")));
    assert_eq!(help_keys().len(), 13);
}

#[test]
fn legend_names_every_verdict() {
    let entries = legend();

    assert_eq!(entries.len(), 12);
    assert_eq!(entries[0].0, Verdict::InSync);
    assert_eq!(entries[11].1, "no pods, so nothing to compare");
}

#[test]
fn a_terminal_too_small_is_told_so() {
    assert!(too_small(59, 40));
    assert!(too_small(120, 14));
    assert!(!too_small(60, 15));
    assert_eq!(too_small_text(42, 10), "terminal too small: 42×10, need 60×15");
}

#[test]
fn counts_are_written_out() {
    let counts = Counts { in_sync: 13, behind: 2, failed: 1, unknown: 0 };

    assert_eq!(tally(&counts), vec!["● 13  ", "▼ 2  ", "✗ 1  ", "○ 0"]);
    assert_eq!(summary(&counts), vec!["● 13 in sync", "▼ 2 behind", "✗ 1 failed", "○ 0 unknown"]);
    let chips: Vec<(Filter, String)> = filter_chips(16, &counts);
    assert_eq!(chips[1], (Filter::Problems, " problems 3 ".to_string()));
    assert_eq!(chip(Filter::All, 16), " all 16 ");
    assert_eq!(totals(16, 40, 71), "16 namespaces · 40 pods · 71 containers");
    assert_eq!(count_of(3, 12), "3 of 12");
    assert_eq!(fraction(3, 12), "3/12");
    assert_eq!(fresh_text(""), "starting up");
    assert_eq!(fresh_text("k8s 4s ago"), "k8s 4s ago");
}

#[test]
fn position_reads_as_where_the_cursor_is() {
    assert_eq!(position_text("", Some(2), 12), "3/12");
    assert_eq!(position_text("pod ", None, 4), "pod -/4");
    assert_eq!(position_text("pod ", Some(0), 0), "0/0");
}

#[test]
fn column_titles_follow_what_they_hold() {
    assert_eq!(deployed_title(RefKind::Commits), "DEPLOYED COMMIT");
    assert_eq!(deployed_title(RefKind::Tags), "DEPLOYED TAG");
    assert_eq!(deployed_title(RefKind::Mixed), "DEPLOYED");
    assert_eq!(reference_title(RefKind::Tags), "TAG");
}

#[test]
fn widths_are_what_the_fixed_columns_leave() {
    assert_eq!(flexible(155), (60, 40));
    assert_eq!(flexible(40), (0, 0));
    assert_eq!(narrow_name_width(80), 58);
    assert_eq!(pod_name_width(100, true), 46);
    assert_eq!(pod_name_width(60, false), 36);
    assert_eq!(container_list_height(0), 3);
    assert_eq!(container_list_height(9), 6);
}

#[test]
fn family_heading_is_ruled_to_the_column() {
    let heading = family_heading("orchard");

    assert_eq!(heading.chars().count(), 25);
    assert!(heading.starts_with("orchard ─"));
}

#[test]
fn name_splits_where_the_family_prefix_ends() {
    assert_eq!(split_name("orchard-gateway", 8), ("orchard-", "gateway"));
    assert_eq!(split_name("orchard", 12), ("orchard", ""));
}

#[test]
fn search_match_is_found_ignoring_case() {
    assert_eq!(hit("Ledger-API", "api"), Some(7));
    assert_eq!(hit("ledger", ""), None);
    assert_eq!(hit("lédger", "dg"), None);
    assert_eq!(
        matched_parts("orchard-Ledger", "ledger"),
        Some(("orchard-".to_string(), "Ledger".to_string(), String::new()))
    );
    assert_eq!(matched_parts("orchard", "x"), None);
}

#[test]
fn pod_name_gives_up_its_prefix_first() {
    match pod_name_cells("orchard-gateway-", "6b9f4c2d71-", "q8xzv", 40) {
        PodNameCells::Whole(a, b, c) => {
            assert_eq!(a, "orchard-gateway-");
            assert_eq!(b, "6b9f4c2d71-");
            assert_eq!(c, "q8xzv");
        }
        PodNameCells::Cut(_) => panic!("fits whole"),
    }
    match pod_name_cells("orchard-gateway-", "6b9f4c2d71-", "q8xzv", 8) {
        PodNameCells::Cut(kept) => assert_eq!(kept, "6b9f4c2…"),
        PodNameCells::Whole(..) => panic!("does not fit"),
    }
}

#[test]
fn narrow_overview_shows_the_first_deployed_reference_or_a_dash() {
    let groups = vec![
        Deployed { label: "4f1c0f2c".to_string(), count: 2, verdict: Verdict::InSync },
        Deployed { label: "91bd7e40".to_string(), count: 1, verdict: Verdict::Behind },
    ];
    assert_eq!(first_deployed(&groups), ("4f1c0f2c".to_string(), Some(Verdict::InSync)));
    assert_eq!(first_deployed(&vec![]), ("—".to_string(), None));
}
