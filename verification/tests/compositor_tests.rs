//! Compositing: palette assignment, extreme intensities, the additive
//! multi-dataset model, and the error conditions.

use accuracy_heatmap::{BackGround, Color, HeatmapError};
use accuracy_heatmap::compositor::{assign_colors, plot_heatmap};
use accuracy_heatmap::histogram::Histogram;

fn single_bin_histogram(x: usize, y: usize, count: u64) -> Histogram {
    let mut h = Histogram::new();
    for _ in 0..count {
        h.increment(x, y);
    }
    h
}

#[test]
fn assign_colors_cycles_defaults() {
    let colors = assign_colors(&None, 2).unwrap();
    assert_eq!(colors, vec![Color::Red, Color::Blue]);
    let colors = assign_colors(&None, 4).unwrap();
    assert_eq!(colors, vec![Color::Red, Color::Blue, Color::Green, Color::Red]);
}

#[test]
fn assign_colors_keeps_chosen() {
    let chosen = Some(vec![Color::Purple, Color::Yellow]);
    assert_eq!(assign_colors(&chosen, 2).unwrap(), vec![Color::Purple, Color::Yellow]);
}

#[test]
fn assign_colors_mismatch_is_a_config_error() {
    let chosen = Some(vec![Color::Purple]);
    assert_eq!(assign_colors(&chosen, 2).unwrap_err(), HeatmapError::ConfigError);
}

#[test]
fn max_bin_renders_full_intensity() {
    let mut h = single_bin_histogram(10, 20, 3);
    h.increment(100, 200);
    let canvas = plot_heatmap(&vec![h], BackGround::Black, &vec![Color::Purple]).unwrap();
    // the maximum bin saturates its palette channels
    assert_eq!(canvas.pixel_at(10, 20), (255, 0, 255));
    // a count of 1 against a maximum of 3 rounds 85.0 to 85
    assert_eq!(canvas.pixel_at(100, 200), (85, 0, 85));
    // untouched pixels show the background
    assert_eq!(canvas.pixel_at(0, 0), (0, 0, 0));
}

#[test]
fn small_counts_survive_rounding_up_to_510() {
    let mut h = single_bin_histogram(1, 1, 510);
    h.increment(2, 2);
    let canvas = plot_heatmap(&vec![h], BackGround::Black, &vec![Color::Red]).unwrap();
    // round(255/510) is still 1
    assert_eq!(canvas.pixel_at(2, 2), (1, 0, 0));
    let mut h2 = single_bin_histogram(1, 1, 511);
    h2.increment(2, 2);
    let canvas2 = plot_heatmap(&vec![h2], BackGround::Black, &vec![Color::Red]).unwrap();
    // round(255/511) drops to 0
    assert_eq!(canvas2.pixel_at(2, 2), (0, 0, 0));
}

#[test]
fn white_background_inverts_the_other_channels() {
    let mut h = single_bin_histogram(10, 20, 5);
    h.increment(100, 200);
    let canvas = plot_heatmap(&vec![h], BackGround::White, &vec![Color::Red]).unwrap();
    // the maximum bin becomes a pure hue
    assert_eq!(canvas.pixel_at(10, 20), (255, 0, 0));
    // round(255/5) == 51 is taken out of the complementary channels
    assert_eq!(canvas.pixel_at(100, 200), (255, 204, 204));
    assert_eq!(canvas.pixel_at(0, 0), (255, 255, 255));
}

#[test]
fn disjoint_datasets_compose_to_their_union() {
    let h1 = single_bin_histogram(10, 20, 4);
    let h2 = single_bin_histogram(100, 200, 2);
    let canvas = plot_heatmap(
        &vec![h1, h2],
        BackGround::Black,
        &vec![Color::Red, Color::Green],
    )
    .unwrap();
    // each bin renders as its own dataset would against the global maximum
    assert_eq!(canvas.pixel_at(10, 20), (255, 0, 0));
    // round(255 * 2/4) == 128
    assert_eq!(canvas.pixel_at(100, 200), (0, 128, 0));
    assert_eq!(canvas.pixel_at(0, 0), (0, 0, 0));
}

#[test]
fn shared_bins_sum_per_channel() {
    let h1 = single_bin_histogram(10, 20, 4);
    let h2 = single_bin_histogram(10, 20, 2);
    let canvas = plot_heatmap(
        &vec![h1, h2],
        BackGround::Black,
        &vec![Color::Red, Color::Purple],
    )
    .unwrap();
    // red gets 255 from the first dataset plus 128 from the second, clamped;
    // blue only the second dataset's 128
    assert_eq!(canvas.pixel_at(10, 20), (255, 0, 128));
}

#[test]
fn three_datasets_compose() {
    let h1 = single_bin_histogram(10, 20, 2);
    let h2 = single_bin_histogram(10, 20, 2);
    let h3 = single_bin_histogram(11, 20, 1);
    let canvas = plot_heatmap(
        &vec![h1, h2, h3],
        BackGround::Black,
        &vec![Color::Red, Color::Red, Color::Blue],
    )
    .unwrap();
    // two full-intensity red vectors clamp at 255
    assert_eq!(canvas.pixel_at(10, 20), (255, 0, 0));
    // round(255/2) == 128 on the blue channel
    assert_eq!(canvas.pixel_at(11, 20), (0, 0, 128));
}

#[test]
fn dataset_color_count_mismatch_is_a_config_error() {
    let h1 = single_bin_histogram(1, 1, 1);
    assert_eq!(
        plot_heatmap(&vec![h1], BackGround::Black, &vec![Color::Red, Color::Blue]).unwrap_err(),
        HeatmapError::ConfigError
    );
    let no_hists: Vec<Histogram> = Vec::new();
    let no_colors: Vec<Color> = Vec::new();
    assert_eq!(
        plot_heatmap(&no_hists, BackGround::Black, &no_colors).unwrap_err(),
        HeatmapError::ConfigError
    );
}

#[test]
fn too_many_datasets_is_a_config_error() {
    let hists = vec![
        single_bin_histogram(1, 1, 1),
        single_bin_histogram(2, 2, 1),
        single_bin_histogram(3, 3, 1),
        single_bin_histogram(4, 4, 1),
    ];
    let colors = vec![Color::Red, Color::Blue, Color::Green, Color::Yellow];
    assert_eq!(
        plot_heatmap(&hists, BackGround::Black, &colors).unwrap_err(),
        HeatmapError::ConfigError
    );
}

#[test]
fn empty_histogram_is_a_data_error() {
    let empty = Histogram::new();
    assert_eq!(
        plot_heatmap(&vec![empty], BackGround::Black, &vec![Color::Red]).unwrap_err(),
        HeatmapError::DataError
    );
}
