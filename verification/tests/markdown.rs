use saga_seeker_html2md::markdown::{
    filter_empty_items, filter_preamble, initial_line_filter, normalize_blank_lines,
    section_is_empty, split_sections, trim_outer_blank_lines,
};
use saga_seeker_html2md::sheet::{
    cleanup_markdown, flush_h3_section, process_character_detail_section, process_section,
    remove_empty_h3_sections,
};
use saga_seeker_html2md::markdown::Section;
use saga_seeker_html2md::skills::SkillInfo;
use saga_seeker_html2md::status::{extract_rank, process_status_section};

fn strings(v: &[&str]) -> Vec<String> {
    v.iter().map(|s| s.to_string()).collect()
}

#[test]
fn trim_outer_blank_lines_keeps_inner_blanks() {
    let r = trim_outer_blank_lines(strings(&["", " ", "a", "", "b", "  "]));
    assert_eq!(r, strings(&["a", "", "b"]));
    assert!(trim_outer_blank_lines(strings(&["", "\t"])).is_empty());
}

#[test]
fn normalize_blank_lines_collapses_and_terminates() {
    assert_eq!(normalize_blank_lines(&strings(&["", "a  ", "", " ", "b", ""])), "a\n\nb\n");
    assert_eq!(normalize_blank_lines(&strings(&["", " "])), "");
    assert_eq!(normalize_blank_lines(&[]), "");
}

#[test]
fn split_sections_at_h2() {
    let (pre, secs) = split_sections(&strings(&["intro", "## A", "x", "### sub", "## B"]));
    assert_eq!(pre, strings(&["intro"]));
    assert_eq!(secs.len(), 2);
    assert_eq!(secs[0].heading, "## A");
    assert_eq!(secs[0].body, strings(&["x", "### sub"]));
    assert_eq!(secs[1].heading, "## B");
    assert!(secs[1].body.is_empty());
}

#[test]
fn initial_filter_drops_images_and_footers() {
    let r = initial_line_filter("a  \r\n![x](y)\nDiscord\nb\n");
    assert_eq!(r, strings(&["a", "b"]));
}

#[test]
fn empty_sections() {
    assert!(section_is_empty(&strings(&["", "- ", "|---|", "- 空白"])));
    assert!(!section_is_empty(&strings(&["text"])));
}

#[test]
fn filters() {
    assert_eq!(
        filter_empty_items(&strings(&["- 空白", "- 剣術", "魅力: 5", ""])),
        strings(&["- 剣術"])
    );
    assert_eq!(filter_preamble(&strings(&["# 名前", "", "- 空白"])), strings(&["# 名前", ""]));
}

#[test]
fn extract_rank_reads_last_rank() {
    assert_eq!(extract_rank(&strings(&["筋力", "ランク S", ""])), Some("S"));
    assert_eq!(extract_rank(&strings(&["EX"])), Some("EX"));
    assert_eq!(extract_rank(&strings(&["なし"])), None);
}

#[test]
fn status_section_keeps_six_statuses_only() {
    let lines = strings(&["- 筋力", "A", "- 耐久力", "B", "- 魅力", "S", "- 運", "EX"]);
    assert_eq!(
        process_status_section(&lines),
        Some(strings(&["- 筋力: A", "- 耐久力: B", "- 運: EX"]))
    );
    assert_eq!(process_status_section(&strings(&["- 魅力", "S"])), None);
    assert_eq!(process_status_section(&[]), None);
}

#[test]
fn empty_h3_parts_are_removed() {
    let r = remove_empty_h3_sections(strings(&["### A", "", "### B", "text", "### C", "- 空白"]));
    assert_eq!(r, strings(&["### B", "", "text"]));
}

#[test]
fn character_detail_section() {
    let section = Section {
        heading: "## キャラクター詳細".to_string(),
        body: strings(&["基本設定", "勇敢な剣士", "魅力", "秘密", "外見", "", "赤い髪", "経歴"]),
    };
    assert_eq!(
        process_character_detail_section(section),
        Some(strings(&[
            "## キャラクター詳細",
            "",
            "### 基本設定",
            "",
            "勇敢な剣士",
            "",
            "### 外見",
            "",
            "赤い髪",
        ]))
    );
}

#[test]
fn removed_sections_give_nothing() {
    for title in ["## アイコン画像", "## 魅力"] {
        let section = Section { heading: title.to_string(), body: strings(&["内容"]) };
        assert_eq!(process_section(section, &[]), None);
    }
}

#[test]
fn item_sections_drop_empty_items() {
    let section = Section {
        heading: "## 思い出".to_string(),
        body: strings(&["", "- 空白", "- 初陣", "- 魅力: S"]),
    };
    assert_eq!(process_section(section, &[]), Some(strings(&["## 思い出", "", "- 初陣"])));
}

#[test]
fn skill_section_uses_extracted_skills() {
    let section = Section { heading: "## スキル".to_string(), body: strings(&["- 空白"]) };
    let skills = vec![SkillInfo { name: "盾".to_string(), description: None }];
    assert_eq!(process_section(section, &skills), Some(strings(&["## スキル", "", "- 盾"])));
}

#[test]
fn cleanup_markdown_whole_sheet() {
    let md = "# キャラ名\n\n![icon](a.png)\n\n## ステータス\n\n- 筋力\n- A\n- 魅力\n- S\n\n## スキル\n\n- 空白\n\n## 魅力\n\n高い\n\n## 思い出\n\n- 初陣\n\nDiscord\n";
    assert_eq!(
        cleanup_markdown(md, &[]),
        "# キャラ名\n\n## ステータス\n\n- 筋力: A\n\n## 思い出\n\n- 初陣\n"
    );
    assert_eq!(cleanup_markdown("", &[]), "");
}

#[test]
fn character_detail_drops_charm_lines_and_part() {
    let section = Section {
        heading: "## キャラクター詳細".to_string(),
        body: strings(&["### 外見", "赤い髪", "魅力：高い", "### 魅力", "人を惹きつける", "### 口調", "丁寧"]),
    };
    assert_eq!(
        process_character_detail_section(section),
        Some(strings(&[
            "## キャラクター詳細",
            "",
            "### 外見",
            "",
            "赤い髪",
            "",
            "### 口調",
            "",
            "丁寧",
        ]))
    );
}

#[test]
fn character_detail_with_nothing_left_is_dropped() {
    let section = Section {
        heading: "## キャラクター詳細".to_string(),
        body: strings(&["### 外見", "- 空白", "魅力", "秘密"]),
    };
    assert_eq!(process_character_detail_section(section), None);
}

#[test]
fn cleaned_markdown_is_tidy() {
    let md = "\n\n## 思い出   \n\n\n\n- 初陣   \n\n\n- 凱旋\n\n## メモ\n\n\na  \n\n\n\nb\n\n\n";
    let out = cleanup_markdown(md, &[]);
    assert_eq!(out, "## 思い出\n\n- 初陣\n- 凱旋\n\n## メモ\n\na\n\nb\n");
    assert!(!out.contains("\n\n\n"));
    assert!(!out.starts_with('\n'));
}

#[test]
fn character_detail_subheading_marks_are_normalized() {
    let section = Section {
        heading: "## キャラクター詳細".to_string(),
        body: strings(&["#### 外見", "", "金髪"]),
    };
    assert_eq!(
        process_character_detail_section(section),
        Some(strings(&["## キャラクター詳細", "", "### 外見", "", "金髪"]))
    );
}

#[test]
fn flush_without_heading_leaves_everything() {
    let mut output = strings(&["a"]);
    let mut body = strings(&["b"]);
    flush_h3_section(&mut output, None, &mut body);
    assert_eq!(output, strings(&["a"]));
    assert_eq!(body, strings(&["b"]));
}

#[test]
fn flush_with_heading_appends_and_empties_body() {
    let mut output = strings(&["a"]);
    let mut body = strings(&["", "b", ""]);
    flush_h3_section(&mut output, Some("### 外見".to_string()), &mut body);
    assert_eq!(output, strings(&["a", "", "### 外見", "", "b"]));
    assert!(body.is_empty());
    let mut body = strings(&["", "-"]);
    flush_h3_section(&mut output, Some("### 経歴".to_string()), &mut body);
    assert_eq!(output, strings(&["a", "", "### 外見", "", "b"]));
    assert!(body.is_empty());
}

#[test]
fn character_detail_keeps_written_h3_subheadings() {
    let section = Section {
        heading: "## キャラクター詳細".to_string(),
        body: strings(&["  ### 外見", "金髪"]),
    };
    assert_eq!(
        process_character_detail_section(section),
        Some(strings(&["## キャラクター詳細", "", "  ### 外見", "", "金髪"]))
    );
}

#[test]
fn normalizing_the_text_twice_changes_nothing() {
    let once = normalize_blank_lines(&strings(&["", "a  ", "", "", "b", " ", ""]));
    assert_eq!(once, "a\n\nb\n");
    let again: Vec<String> = once.lines().map(String::from).collect();
    assert_eq!(normalize_blank_lines(&again), once);
}

#[test]
fn one_section_per_h2_heading() {
    let (preamble, sections) =
        split_sections(&strings(&["intro", "## A", "x", "### sub", "## B", "## C", "y"]));
    assert_eq!(preamble, strings(&["intro"]));
    assert_eq!(sections.len(), 3);
}

#[test]
fn cleaned_output_has_no_image_footer_or_charm_line() {
    let markdown = "![icon](a.png)\n## 魅力\n\n高い\n## その他\n\n- 魅力: 高い\n- 勇敢\nDiscord\n";
    let out = cleanup_markdown(markdown, &[]);
    assert_eq!(out, "## その他\n\n- 勇敢\n");
}
