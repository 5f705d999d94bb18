use saga_seeker_html2md::json::{skill_from_json_item, skills_from_json_texts, JsonValue};
use saga_seeker_html2md::skills::{
    make_skill_info, merge_missing_skills, normalize_text, render_skill_section,
    skills_from_attributes, SkillAttributes, SkillInfo,
};

fn skill(name: &str, description: Option<&str>) -> SkillInfo {
    SkillInfo { name: name.to_string(), description: description.map(|d| d.to_string()) }
}

fn pairs(v: &[SkillInfo]) -> Vec<(String, Option<String>)> {
    v.iter().map(|s| (s.name.clone(), s.description.clone())).collect()
}

#[test]
fn normalize_text_unifies_and_trims_lines() {
    assert_eq!(normalize_text("  a \r\n\r\n b\rc  "), "a\nb\nc");
    assert_eq!(normalize_text(" \n "), "");
}

#[test]
fn make_skill_info_keeps_real_skills() {
    let s = make_skill_info("  火球 ", "", "無し").unwrap();
    assert_eq!(s.name, "火球");
    assert_eq!(s.description, None);
    let s = make_skill_info("回復", "active", " 傷を癒す ").unwrap();
    assert_eq!(s.description.as_deref(), Some("傷を癒す"));
    assert!(make_skill_info("空白", "", "x").is_none());
    assert!(make_skill_info("魅力", "", "x").is_none());
    assert!(make_skill_info(" ", "", "x").is_none());
}

#[test]
fn skill_type_plays_no_part() {
    let a = make_skill_info("剣", "attack", "斬る").unwrap();
    let b = make_skill_info("剣", "", "斬る").unwrap();
    assert_eq!((a.name, a.description), (b.name, b.description));
}

#[test]
fn merge_adds_missing_and_fills_descriptions() {
    let mut skills = vec![skill("A", None), skill("B", Some("b"))];
    merge_missing_skills(&mut skills, vec![skill("A", Some("a")), skill("C", None), skill("B", Some("x"))]);
    assert_eq!(
        pairs(&skills),
        pairs(&[skill("A", Some("a")), skill("B", Some("b")), skill("C", None)])
    );
}

#[test]
fn render_skill_section_lines() {
    let skills = vec![skill("火球", Some("炎を放つ\n範囲攻撃")), skill("回復", None)];
    let r = render_skill_section("## スキル".to_string(), &skills);
    let want: Vec<String> = ["## スキル", "", "### 火球", "", "炎を放つ", "範囲攻撃", "", "- 回復"]
        .iter()
        .map(|s| s.to_string())
        .collect();
    assert_eq!(r, want);
    let r = render_skill_section("## スキル".to_string(), &[skill("盾", Some("守る"))]);
    assert_eq!(r.last().map(String::as_str), Some("守る"));
}

#[test]
fn skills_from_attribute_values() {
    let entries = vec![
        SkillAttributes { name: Some("剣術".to_string()), skill_type: None, description: Some("斬る".to_string()) },
        SkillAttributes { name: None, skill_type: None, description: Some("x".to_string()) },
        SkillAttributes { name: Some("魅力".to_string()), skill_type: None, description: None },
        SkillAttributes { name: Some("盾".to_string()), skill_type: Some("".to_string()), description: None },
    ];
    assert_eq!(
        pairs(&skills_from_attributes(&entries)),
        pairs(&[skill("剣術", Some("斬る")), skill("盾", None)])
    );
}

#[test]
fn json_skills_found_outside_charm() {
    let texts = vec![
        r#"{"a":{"skills":[{"name":" 火球 ","type":"x","description":"炎"},{"title":"回復"},{"name":"魅力"}]},"魅力":{"skills":[{"name":"隠し"}]}}"#.to_string(),
        "not json".to_string(),
        r#"[{"skills":[{"label":"盾","detail":"  "}]}]"#.to_string(),
    ];
    assert_eq!(
        pairs(&skills_from_json_texts(&texts)),
        pairs(&[skill("火球", Some("炎")), skill("回復", None), skill("盾", None)])
    );
}

#[test]
fn json_item_fields_in_key_order() {
    let item = JsonValue::Object(vec![
        ("label".to_string(), JsonValue::Str("ラベル".to_string())),
        ("name".to_string(), JsonValue::Str("  ".to_string())),
        ("skillName".to_string(), JsonValue::Number("3".to_string())),
        ("title".to_string(), JsonValue::Str("題".to_string())),
    ]);
    let s = skill_from_json_item(&item).unwrap();
    assert_eq!(s.name, "題");
    assert!(skill_from_json_item(&JsonValue::Null).is_none());
}

#[test]
fn merge_never_repeats_a_name() {
    let mut skills = vec![skill("A", None)];
    merge_missing_skills(&mut skills, vec![skill("B", None), skill("A", None), skill("B", Some("b"))]);
    assert_eq!(pairs(&skills), pairs(&[skill("A", None), skill("B", Some("b"))]));
}
