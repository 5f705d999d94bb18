use saga_seeker_html2md::line_rules::{
    clean_marker_text, heading_title, is_character_detail_charm_heading,
    is_character_detail_valid_heading, is_charm_line, is_empty_heading, is_empty_item,
    is_empty_table_row, is_footer_line, is_h2_heading, is_image_line, is_table_separator,
    is_useless_status_marker, line_contains_stat_name, should_skip_noise_line,
};

#[test]
fn clean_marker_text_strips_bullets_and_stars() {
    assert_eq!(clean_marker_text("  - **筋力** "), "筋力");
    assert_eq!(clean_marker_text("1. 運: A"), "運: A");
    assert_eq!(clean_marker_text("・＊知力＊"), "知力");
    assert_eq!(clean_marker_text("   "), "");
}

#[test]
fn empty_heading_is_hashes_only() {
    assert!(is_empty_heading("###"));
    assert!(is_empty_heading("#  "));
    assert!(!is_empty_heading("### a"));
    assert!(!is_empty_heading("abc"));
}

#[test]
fn empty_items() {
    assert!(is_empty_item("- 空白"));
    assert!(is_empty_item("-"));
    assert!(is_empty_item(""));
    assert!(!is_empty_item("- 内容"));
}

#[test]
fn charm_lines_only_at_line_start() {
    assert!(is_charm_line("- 魅力: S"));
    assert!(is_charm_line("魅力：高い"));
    assert!(is_charm_line("**魅力**"));
    assert!(!is_charm_line("彼女の魅力は笑顔"));
}

#[test]
fn useless_status_marker_examples() {
    assert!(is_useless_status_marker("* ＊ ＊ *"));
    assert!(!is_useless_status_marker("***"));
    assert!(!is_useless_status_marker("A"));
}

#[test]
fn table_rows() {
    assert!(is_table_separator("| --- | :-: |"));
    assert!(!is_table_separator("|a|"));
    assert!(!is_table_separator("--- | ---"));
    assert!(is_empty_table_row("|  |  |"));
    assert!(is_empty_table_row("||"));
    assert!(!is_empty_table_row("| a |"));
    assert!(is_empty_table_row("|"));
}

#[test]
fn image_lines_case_insensitive() {
    assert!(is_image_line("![img](x.png)"));
    assert!(is_image_line("<IMG src=\"a\">"));
    assert!(is_image_line("src=\"DATA:IMAGE/png;base64,AAA\""));
    assert!(!is_image_line("text"));
}

#[test]
fn footer_lines() {
    assert!(is_footer_line("© 2024 Dagdoria Studio"));
    assert!(is_footer_line("Steamストアで購入"));
    assert!(is_footer_line("https://TWITTER.com/x"));
    assert!(is_footer_line("join discord"));
    assert!(!is_footer_line("キャラクター"));
}

#[test]
fn noise_lines() {
    assert!(!should_skip_noise_line(""));
    assert!(!should_skip_noise_line("   "));
    assert!(should_skip_noise_line("## "));
    assert!(should_skip_noise_line("- 空白"));
    assert!(should_skip_noise_line("  魅力: 5  "));
    assert!(should_skip_noise_line("| | |"));
    assert!(!should_skip_noise_line("本文"));
    assert!(!should_skip_noise_line("彼女の魅力は笑顔"));
}

#[test]
fn headings() {
    assert!(is_h2_heading("## スキル"));
    assert!(!is_h2_heading("### x"));
    assert!(!is_h2_heading("##x"));
    assert_eq!(heading_title("## スキル "), "スキル");
    assert_eq!(heading_title("###"), "");
}

#[test]
fn character_detail_headings() {
    assert!(is_character_detail_valid_heading("外見"));
    assert!(is_character_detail_valid_heading("### 外見"));
    assert!(is_character_detail_valid_heading("その他の特徴"));
    assert!(!is_character_detail_valid_heading("外見について"));
    assert!(is_character_detail_charm_heading("## 魅力"));
    assert!(!is_character_detail_charm_heading("魅力的"));
}

#[test]
fn stat_name_lines() {
    assert!(line_contains_stat_name("- 筋力: A", "筋力"));
    assert!(line_contains_stat_name("筋力", "筋力"));
    assert!(!line_contains_stat_name("耐久力", "筋力"));
}
