use pdfcompressor::display::{
    band_description, band_label, batch_finished, compression_band, progress_text, reduction_hundredths,
    reduction_percent, reduction_text, CompressionBand,
};

fn calculate_reduction_percentage(original: u64, compressed: u64) -> f64 {
    reduction_hundredths(original, compressed) as f64 / 100.0
}

#[test]
fn test_calculate_reduction_percentage_basic() {
    assert_eq!(calculate_reduction_percentage(1000, 500), 50.0);
    assert_eq!(calculate_reduction_percentage(1000, 750), 25.0);
    assert_eq!(calculate_reduction_percentage(1000, 250), 75.0);
}

#[test]
fn test_calculate_reduction_percentage_edge_cases() {
    assert_eq!(calculate_reduction_percentage(1000, 1000), 0.0);
    assert_eq!(calculate_reduction_percentage(1000, 0), 100.0);
    assert_eq!(calculate_reduction_percentage(0, 0), 0.0);
}

#[test]
fn test_calculate_reduction_percentage_expansion() {
    // If compressed is larger (shouldn't happen normally)
    let result = calculate_reduction_percentage(1000, 1100);
    assert!(result < 0.0); // Negative reduction (expansion)
}

#[test]
fn test_calculate_reduction_percentage_precision() {
    let reduction = calculate_reduction_percentage(1234, 567);
    let expected = (1234 - 567) as f64 / 1234.0 * 100.0;
    assert!((reduction - expected).abs() < 0.01);
}

#[test]
fn test_progress_tracking() {
    let total_files = 10;
    let processed_files = 7;

    let progress = progress_text(processed_files, total_files);
    assert_eq!(progress, "Processed 7/10 files");
}

#[test]
fn test_compression_level_ranges() {
    // Test compression level descriptions
    let get_description = |level: u8| -> &str { band_label(compression_band(level)) };

    assert_eq!(get_description(10), "Low Compression");
    assert_eq!(get_description(25), "Low Compression");
    assert_eq!(get_description(26), "Medium Compression");
    assert_eq!(get_description(50), "Medium Compression");
    assert_eq!(get_description(51), "High Compression");
    assert_eq!(get_description(75), "High Compression");
    assert_eq!(get_description(76), "Maximum Compression");
    assert_eq!(get_description(95), "Maximum Compression");
}

#[test]
fn reduction_hundredths_exact_values() {
    assert_eq!(reduction_hundredths(1234, 567), 5405);
    assert_eq!(reduction_hundredths(3, 2), 3333);
    assert_eq!(reduction_hundredths(1000, 1100), -1000);
    assert_eq!(reduction_hundredths(3, 4), -3333);
    assert_eq!(reduction_hundredths(0, 17), 0);
    assert_eq!(reduction_hundredths(u64::MAX, 0), 10000);
    assert_eq!(reduction_hundredths(1, u64::MAX), -((u64::MAX as i128 - 1) * 10000));
}

#[test]
fn reduction_percent_exact_values() {
    assert_eq!(reduction_percent(1000, 710), 29);
    assert_eq!(reduction_percent(1000, 999), 0);
    assert_eq!(reduction_percent(1000, 1000), 0);
    assert_eq!(reduction_percent(1000, 2000), 0);
    assert_eq!(reduction_percent(0, 0), 0);
    assert_eq!(reduction_percent(u64::MAX, 0), 100);
    assert_eq!(reduction_percent(3, 1), 66);
}

#[test]
fn band_descriptions_name_their_band() {
    for band in [CompressionBand::Low, CompressionBand::Medium, CompressionBand::High, CompressionBand::Maximum] {
        assert!(band_description(band).starts_with(band_label(band)));
    }
    assert_eq!(
        band_description(compression_band(75)),
        "High Compression (50-75%) - Good size reduction (Recommended)"
    );
    assert_eq!(compression_band(0), CompressionBand::Low);
    assert_eq!(compression_band(255), CompressionBand::Maximum);
}

#[test]
fn progress_text_and_batch_end() {
    assert_eq!(progress_text(0, 0), "Processed 0/0 files");
    assert_eq!(progress_text(12, 345), "Processed 12/345 files");
    assert_eq!(
        progress_text(usize::MAX, 1),
        format!("Processed {}/1 files", usize::MAX)
    );
    assert!(!batch_finished(2, 3));
    assert!(batch_finished(3, 3));
    assert!(batch_finished(4, 3));
    assert!(batch_finished(0, 0));
}

#[test]
fn reduction_text_has_two_decimals() {
    assert_eq!(reduction_text(1000, 500), "50.00");
    assert_eq!(reduction_text(1234, 567), "54.05");
    assert_eq!(reduction_text(3, 2), "33.33");
    assert_eq!(reduction_text(1000, 1000), "0.00");
    assert_eq!(reduction_text(1000, 0), "100.00");
    assert_eq!(reduction_text(0, 17), "0.00");
    assert_eq!(reduction_text(1000, 1100), "-10.00");
    assert_eq!(reduction_text(1000, 1001), "-0.10");
    assert_eq!(reduction_text(200, 199), "0.50");
    assert_eq!(reduction_text(1, u64::MAX), "-1844674407370955161400.00");
}
