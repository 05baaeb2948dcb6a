//! The axis annotation commands: counts, positions and label texts.

use accuracy_heatmap::BackGround;
use accuracy_heatmap::axis_ticks::{TickRect, add_ticks, tick_color};
use accuracy_heatmap::utils::is_file;

#[test]
fn tick_color_follows_background() {
    assert_eq!(tick_color(BackGround::Black), (255, 255, 255));
    assert_eq!(tick_color(BackGround::White), (0, 0, 0));
}

#[test]
fn percent_mode_ticks() {
    let (rects, labels) = add_ticks(false);
    // 5 + 5 major, 6 intermediate and 54 minor length ticks, then
    // 2 + 2 major, 3 intermediate and 30 minor accuracy ticks
    assert_eq!(rects.len(), 107);
    // major length ticks sit at the decades, top and bottom
    assert_eq!(rects[0], TickRect { x: 100, y: 0, w: 1, h: 12 });
    assert_eq!(rects[4], TickRect { x: 500, y: 0, w: 1, h: 12 });
    assert_eq!(rects[5], TickRect { x: 100, y: 588, w: 1, h: 12 });
    // the first intermediate tick is at half a decade
    assert_eq!(rects[10], TickRect { x: transform_len(5), y: 0, w: 1, h: 6 });
    // accuracy majors at 80% (row 400) and 90% (row 200), right edge first
    assert_eq!(rects[70], TickRect { x: 588, y: 400, w: 12, h: 1 });
    assert_eq!(rects[71], TickRect { x: 588, y: 200, w: 12, h: 1 });
    assert_eq!(rects[72], TickRect { x: 0, y: 400, w: 12, h: 1 });
    // labels: the five decades and the two accuracy majors
    assert_eq!(labels.len(), 7);
    assert_eq!(labels[0].text, "10");
    assert_eq!((labels[0].x, labels[0].y, labels[0].size), (89, 560, 24));
    assert_eq!(labels[4].text, "100000");
    assert_eq!(labels[5].text, "80%");
    assert_eq!((labels[5].x, labels[5].y), (15, 390));
    assert_eq!(labels[6].text, "90%");
    assert_eq!((labels[6].x, labels[6].y), (15, 190));
}

#[test]
fn phred_mode_ticks() {
    let (rects, labels) = add_ticks(true);
    // the same 70 length ticks, then 3 + 3 major, 4 intermediate and 40
    // minor phred ticks
    assert_eq!(rects.len(), 120);
    // Q10 at row 450, Q20 at 300, Q30 at 150
    assert_eq!(rects[70], TickRect { x: 588, y: 450, w: 12, h: 1 });
    assert_eq!(rects[71], TickRect { x: 588, y: 300, w: 12, h: 1 });
    assert_eq!(rects[72], TickRect { x: 588, y: 150, w: 12, h: 1 });
    assert_eq!(rects[73], TickRect { x: 0, y: 450, w: 12, h: 1 });
    assert_eq!(labels.len(), 8);
    assert_eq!(labels[5].text, "Q10");
    assert_eq!((labels[5].x, labels[5].y), (15, 440));
    assert_eq!(labels[7].text, "Q30");
    assert_eq!((labels[7].x, labels[7].y), (15, 140));
}

fn transform_len(len: usize) -> i32 {
    accuracy_heatmap::transform::transform_length(len) as i32
}

#[test]
fn stdin_marker_is_accepted() {
    assert!(is_file("-").is_ok());
}

#[test]
fn missing_file_is_reported_with_its_path() {
    let err = is_file("no/such/file.bam").unwrap_err();
    assert_eq!(err, "Input file no/such/file.bam is invalid");
}
