use saga_seeker_html2md::page::{
    convert_page, decode_html, extract_skills, extract_skills_from_html_attrs, extract_skills_from_json,
    markdown_from_html, prepare_page, preprocess_html, remove_by_selector,
    remove_hidden_by_inline_style, removed_selector_list, style_hides_element,
};
use saga_seeker_html2md::dom::Document;
use saga_seeker_html2md::sheet::cleanup_markdown;
use saga_seeker_html2md::skills::SkillInfo;

fn pairs(skills: &[SkillInfo]) -> Vec<(String, Option<String>)> {
    skills.iter().map(|s| (s.name.clone(), s.description.clone())).collect()
}

#[test]
fn decode_html_prefers_utf8() {
    assert_eq!(decode_html(b"\xEF\xBB\xBFabc"), Ok("abc".to_string()));
    assert_eq!(decode_html("日本".as_bytes()), Ok("日本".to_string()));
}

#[test]
fn decode_html_reads_invalid_utf8_after_a_byte_order_mark() {
    // The whole page goes to the Shift_JIS decoder, which honours the mark.
    assert_eq!(decode_html(b"\xEF\xBB\xBF\xFF"), Ok("\u{FFFD}".to_string()));
}

#[test]
fn decode_html_falls_back_to_shift_jis() {
    assert_eq!(decode_html(&[0x93, 0xFA, 0x96, 0x7B]), Ok("日本".to_string()));
}

#[test]
fn inline_styles_that_hide() {
    assert!(style_hides_element("Display : None;"));
    assert!(style_hides_element("color:red; visibility:HIDDEN"));
    assert!(!style_hides_element("color:red"));
}

#[test]
fn prepare_page_reads_skills_and_strips_hidden() {
    let html = "<html><body>\
        <div data-skill-name=\"剣術\" data-skill-description=\"斬る\"></div>\
        <script type=\"application/json\">{\"skills\":[{\"name\":\"剣術\",\"description\":\"別\"},{\"name\":\"盾\"}]}</script>\
        <p style=\"display: none\">秘密</p><p hidden>隠れ</p><p>見える</p>\
        </body></html>";
    let (skills, cleaned) = prepare_page(html);
    let got: Vec<(String, Option<String>)> =
        skills.iter().map(|s| (s.name.clone(), s.description.clone())).collect();
    assert_eq!(
        got,
        vec![("剣術".to_string(), Some("斬る".to_string())), ("盾".to_string(), None)]
    );
    assert!(cleaned.contains("見える"));
    assert!(!cleaned.contains("秘密"));
    assert!(!cleaned.contains("隠れ"));
    assert!(!cleaned.contains("<script"));
}

#[test]
fn markdown_from_html_renders_headings() {
    let md = markdown_from_html("<h2>スキル</h2><p>本文</p>").unwrap();
    assert!(md.contains("## スキル"));
    assert!(md.contains("本文"));
}

#[test]
fn markdown_from_html_reports_converter_errors() {
    match markdown_from_html("%PDF-1.4 binary") {
        Err(e) => assert!(e.message().contains("binary data detected")),
        Ok(md) => panic!("expected a conversion error, got {md:?}"),
    }
}

#[test]
fn attribute_skills_use_name_and_description() {
    let mut document = Document::parse(
        "<div data-skill-name=\" 斬撃 \" data-skill-type=\"\" data-skill-description=\"無し\"></div>\
         <span data-skill-name=\"魅力\"></span>\
         <p data-skill-name=\"回復\" data-skill-description=\"HPを回復\"></p>",
    );
    assert_eq!(
        pairs(&extract_skills_from_html_attrs(&mut document)),
        vec![("斬撃".to_string(), None), ("回復".to_string(), Some("HPを回復".to_string()))]
    );
}

#[test]
fn json_skills_come_from_json_scripts_only() {
    let mut document = Document::parse(
        "<script type=\"application/json\">not json</script>\
         <script type=\"application/json\">{\"skills\":[{\"name\":\"火球\"}]}</script>\
         <script>{\"skills\":[{\"name\":\"水球\"}]}</script>",
    );
    assert_eq!(pairs(&extract_skills_from_json(&mut document)), vec![("火球".to_string(), None)]);
}

#[test]
fn page_skills_are_attribute_skills_completed_by_json() {
    let mut document = Document::parse(
        "<div data-skill-name=\"火球\"></div>\
         <script type=\"application/json\">{\"skills\":[{\"name\":\"火球\",\"description\":\"炎\"},{\"name\":\"氷槍\",\"description\":\"氷\"}]}</script>",
    );
    assert_eq!(
        pairs(&extract_skills(&mut document)),
        vec![
            ("火球".to_string(), Some("炎".to_string())),
            ("氷槍".to_string(), Some("氷".to_string())),
        ]
    );
}

#[test]
fn hidden_styles_are_detached() {
    let html = "<div style=\"DISPLAY : None\">x</div><p style=\"visibility:hidden\">z</p><p style=\"color:red\">y</p>";
    let mut document = Document::parse(html);
    remove_hidden_by_inline_style(&mut document);
    let text = preprocess_html(&mut document, html);
    assert!(text.contains(">y<"));
    assert!(!text.contains(">x<"));
    assert!(!text.contains(">z<"));
}

#[test]
fn removing_by_selector_drops_every_match() {
    let html = "<p>keep</p><footer>a</footer><footer>b</footer>";
    let mut document = Document::parse(html);
    remove_by_selector(&mut document, "footer");
    let text = preprocess_html(&mut document, html);
    assert!(text.contains("keep"));
    assert!(!text.contains("footer"));
}

#[test]
fn removed_selectors_in_order() {
    assert_eq!(
        removed_selector_list(),
        vec!["script", "style", "img", "picture", "svg", "canvas", "footer", "[hidden]"]
    );
}

#[test]
fn json_skills_reach_the_page_before_scripts_go() {
    let html = "<h2>スキル</h2><p>空白</p><script type=\"application/json\">{\"skills\":[{\"name\":\"火球\",\"type\":\"\",\"description\":\"炎を放つ\"}]}</script>";
    let (skills, cleaned) = prepare_page(html);
    assert_eq!(pairs(&skills), vec![("火球".to_string(), Some("炎を放つ".to_string()))]);
    assert!(!cleaned.contains("application/json"));
    assert!(!cleaned.contains("\"skills\""));
    let markdown = markdown_from_html(&cleaned).unwrap();
    let written = cleanup_markdown(&markdown, &skills);
    assert!(written.contains("## スキル\n\n### 火球\n\n炎を放つ"));
    assert!(!written.contains("application/json"));
}

#[test]
fn convert_page_runs_every_stage() {
    let html = "<h2>スキル</h2><p>空白</p><script type=\"application/json\">{\"skills\":[{\"name\":\"火球\",\"description\":\"炎を放つ\"}]}</script>";
    let written = convert_page(html.as_bytes()).unwrap();
    assert_eq!(written, "## スキル\n\n### 火球\n\n炎を放つ\n");
    assert_eq!(convert_page(&[0x93, 0xFA, 0x96, 0x7B]).unwrap(), "日本\n");
}
