//! Properties that hold of every input: what the output of the clean-up
//! can and cannot contain, and what merging skills keeps.
use vstd::prelude::*;
use crate::json::{
    object_get, string_field_of,
    skill_list, skill_of_json, skills_in_items, skills_in_pairs, skills_in_texts, skills_in_value,
    JsonValue,
};
use crate::markdown::{
    collapse_blank, drop_leading_blank, drop_trailing_blank, drop_trailing_empty,
    normalized_lines, normalized_text, trim_blank_lines, SectionView,
};
use crate::sheet::section_output;
use crate::line_rules::{footer_line, image_line, title_of};
use crate::skills::{
    merge_one, merged, name_index, skill_of, skill_of_attributes, skills_of_attributes,
    lemma_name_index, SkillView,
};
use crate::status::{rank_in, rank_of_lines, status_lines, status_names, status_ranks};
use crate::text::{is_blank, is_whitespace, lemma_trim_end_prefix, lines, trim_end, CharClass};

verus! {

// ---------------------------------------------------------------------------
// Statuses
// ---------------------------------------------------------------------------

proof fn lemma_rank_in_member(c: Seq<char>, ranks: Seq<Seq<char>>)
    ensures
        rank_in(c, ranks) matches Some(r) ==> ranks.contains(r),
    decreases ranks.len(),
{
    if ranks.len() > 0 {
        if c == ranks[0] || crate::text::ends_with(c, ranks[0]) {
            assert(ranks.contains(ranks[0])) by {
                assert(ranks[0] == ranks[0]);
            }
        } else {
            lemma_rank_in_member(c, ranks.drop_first());
            if let Some(r) = rank_in(c, ranks.drop_first()) {
                let k = choose|k: int| 0 <= k < ranks.drop_first().len() && ranks.drop_first()[k] == r;
                assert(ranks[k + 1] == r);
            }
        }
    }
}

proof fn lemma_rank_of_lines_member(ls: Seq<Seq<char>>)
    ensures
        rank_of_lines(ls) matches Some(r) ==> status_ranks().contains(r),
    decreases ls.len(),
{
    if ls.len() > 0 {
        lemma_rank_in_member(crate::line_rules::clean_marker(ls.last()), status_ranks());
        lemma_rank_of_lines_member(ls.drop_last());
    }
}

/// A status line of the output, `- name: rank`.
pub open spec fn status_line_of(l: Seq<char>, names: Seq<Seq<char>>) -> bool {
    exists|k: int, r: Seq<char>|
        0 <= k < names.len() && status_ranks().contains(r) && l == "- "@ + names[k] + ": "@ + r
}

/// Every line of a status section names one of the given statuses and one
/// of the ranks `EX`, `S`, `A`, `B`, `C`, `D`, `E`; there is at most one line
/// per status.
pub proof fn law_status_lines_form(ls: Seq<Seq<char>>, names: Seq<Seq<char>>)
    ensures
        forall|i: int|
            0 <= i < status_lines(ls, names).len() ==> status_line_of(
                #[trigger] status_lines(ls, names)[i],
                names,
            ),
        status_lines(ls, names).len() <= names.len(),
    decreases names.len(),
{
    if names.len() > 0 {
        let pre = names.drop_last();
        law_status_lines_form(ls, pre);
        let out = status_lines(ls, names);
        let start = crate::status::first_stat_line(ls, names.last(), 0);
        assert forall|i: int| 0 <= i < out.len() implies status_line_of(#[trigger] out[i], names) by {
            if i < status_lines(ls, pre).len() {
                let l = status_lines(ls, pre)[i];
                assert(out[i] == l);
                assert(status_line_of(l, pre));
                let (k, r) = choose|k: int, r: Seq<char>|
                    0 <= k < pre.len() && status_ranks().contains(r) && l == "- "@ + pre[k]
                        + ": "@ + r;
                assert(names[k] == pre[k]);
            } else {
                let seg = ls.subrange(
                    start,
                    crate::status::entry_end(ls, start, names.last(), crate::status::boundary_names()),
                );
                lemma_rank_of_lines_member(seg);
                let r = rank_of_lines(seg).unwrap();
                assert(out[i] == "- "@ + names[names.len() - 1] + ": "@ + r);
            }
        }
    }
}

/// The discarded `魅力` is not among the reported statuses.
pub proof fn law_status_names_exclude_charm()
    ensures
        !status_names().contains("魅力"@),
{
    reveal_strlit("魅力");
    reveal_strlit("筋力");
    reveal_strlit("耐久力");
    reveal_strlit("知力");
    reveal_strlit("精神力");
    reveal_strlit("素早さ");
    reveal_strlit("運");
    if status_names().contains("魅力"@) {
        let k = choose|k: int| 0 <= k < status_names().len() && status_names()[k] == "魅力"@;
        assert(status_names()[k][0] == "魅力"@[0]);
    }
}

// ---------------------------------------------------------------------------
// Skills
// ---------------------------------------------------------------------------

/// A skill that may appear in the output: a real name, never the discarded
/// `魅力`, and no placeholder description.
pub open spec fn kept_skill(s: SkillView) -> bool {
    &&& s.name.len() > 0
    &&& s.name != "空白"@
    &&& s.name != "魅力"@
    &&& s.description matches Some(d) ==> d.len() > 0 && d != "空白"@ && d != "無し"@
}

pub open spec fn all_kept(s: Seq<SkillView>) -> bool {
    forall|i: int| 0 <= i < s.len() ==> kept_skill(#[trigger] s[i])
}

/// A skill is kept only with a real name, and never under `魅力`.
pub proof fn law_skill_of_kept(name: Seq<char>, description: Seq<char>)
    ensures
        skill_of(name, description) matches Some(s) ==> kept_skill(s),
{
}

proof fn lemma_all_kept_concat(a: Seq<SkillView>, b: Seq<SkillView>)
    requires
        all_kept(a),
        all_kept(b),
    ensures
        all_kept(a + b),
{
    assert forall|i: int| 0 <= i < (a + b).len() implies kept_skill(#[trigger] (a + b)[i]) by {
        if i < a.len() {
            assert((a + b)[i] == a[i]);
        } else {
            assert((a + b)[i] == b[i - a.len()]);
        }
    }
}

proof fn lemma_skill_list_kept(items: Seq<JsonValue>)
    ensures
        all_kept(skill_list(items)),
    decreases items.len(),
{
    if items.len() > 0 {
        lemma_skill_list_kept(items.drop_last());
        reveal_with_fuel(Seq::filter_map, 1);
        let rest = items.drop_last().filter_map(|v: JsonValue| skill_of_json(v));
        match skill_of_json(items.last()) {
            Some(s) => {
                if let JsonValue::Object(pairs) = items.last() {
                    let n = crate::json::string_field_of(pairs@, crate::json::name_keys()).unwrap();
                    law_skill_of_kept(
                        n,
                        match crate::json::string_field_of(pairs@, crate::json::description_keys()) {
                            Some(d) => d,
                            None => seq![],
                        },
                    );
                }
                lemma_all_kept_concat(rest, seq![s]);
            },
            None => {},
        }
    }
}

/// Every skill found in a JSON value is kept: in particular none is named
/// `魅力`.
pub proof fn law_json_skills_kept(v: JsonValue)
    ensures
        all_kept(skills_in_value(v)),
    decreases v,
{
    match v {
        JsonValue::Object(pairs) => {
            assert(decreases_to!(v => v->Object_0));
            lemma_pairs_kept(pairs@);
        },
        JsonValue::Array(items) => {
            assert(decreases_to!(v => v->Array_0));
            lemma_items_kept(items@);
        },
        _ => {},
    }
}

proof fn lemma_items_kept(items: Seq<JsonValue>)
    ensures
        all_kept(skills_in_items(items)),
    decreases items,
{
    if items.len() > 0 {
        lemma_items_kept(items.drop_last());
        law_json_skills_kept(items.last());
        lemma_all_kept_concat(skills_in_items(items.drop_last()), skills_in_value(items.last()));
    }
}

proof fn lemma_pairs_kept(pairs: Seq<(String, JsonValue)>)
    ensures
        all_kept(skills_in_pairs(pairs)),
    decreases pairs,
{
    if pairs.len() > 0 {
        lemma_pairs_kept(pairs.drop_last());
        let pre = skills_in_pairs(pairs.drop_last());
        let key = pairs.last().0@;
        let child = pairs.last().1;
        if key == "skills"@ {
            match child {
                JsonValue::Array(items) => {
                    lemma_skill_list_kept(items@);
                    lemma_all_kept_concat(pre, skill_list(items@));
                },
                _ => {
                    lemma_all_kept_concat(pre, Seq::<SkillView>::empty());
                },
            }
        } else if key != "魅力"@ {
            law_json_skills_kept(child);
            lemma_all_kept_concat(pre, skills_in_value(child));
        }
    }
}

/// Every skill found in the page's JSON texts is kept.
pub proof fn law_json_texts_kept(texts: Seq<Seq<char>>)
    ensures
        all_kept(skills_in_texts(texts)),
    decreases texts.len(),
{
    if texts.len() > 0 {
        law_json_texts_kept(texts.drop_last());
        match crate::json::parsed_json(texts.last()) {
            Some(v) => {
                law_json_skills_kept(v);
                lemma_all_kept_concat(skills_in_texts(texts.drop_last()), skills_in_value(v));
            },
            None => {
                lemma_all_kept_concat(
                    skills_in_texts(texts.drop_last()),
                    Seq::<SkillView>::empty(),
                );
            },
        }
    }
}

/// Every skill read from element attributes is kept.
pub proof fn law_attribute_skills_kept(entries: Seq<(Option<Seq<char>>, Option<Seq<char>>)>)
    ensures
        all_kept(skills_of_attributes(entries)),
    decreases entries.len(),
{
    if entries.len() > 0 {
        law_attribute_skills_kept(entries.drop_last());
        reveal_with_fuel(Seq::filter_map, 1);
        let rest = skills_of_attributes(entries.drop_last());
        match skill_of_attributes(entries.last()) {
            Some(s) => lemma_all_kept_concat(rest, seq![s]),
            None => {},
        }
    }
}

/// Merging keeps the skills' order and names, and the descriptions they had.
pub proof fn law_merge_keeps_existing(a: Seq<SkillView>, f: Seq<SkillView>)
    ensures
        merged(a, f).len() >= a.len(),
        forall|i: int| 0 <= i < a.len() ==> (#[trigger] merged(a, f)[i]).name == a[i].name,
        forall|i: int|
            0 <= i < a.len() && a[i].description is Some ==> (#[trigger] merged(
                a,
                f,
            )[i]).description == a[i].description,
    decreases f.len(),
{
    if f.len() > 0 {
        law_merge_keeps_existing(a, f.drop_last());
        let m = merged(a, f.drop_last());
        lemma_name_index(m, f.last().name);
    }
}

/// After merging, every name of either list is present.
pub proof fn law_merge_covers(a: Seq<SkillView>, f: Seq<SkillView>)
    ensures
        forall|i: int|
            #![trigger a[i]]
            0 <= i < a.len() ==> exists|j: int|
                0 <= j < merged(a, f).len() && (#[trigger] merged(a, f)[j]).name == a[i].name,
        forall|i: int|
            #![trigger f[i]]
            0 <= i < f.len() ==> exists|j: int|
                0 <= j < merged(a, f).len() && (#[trigger] merged(a, f)[j]).name == f[i].name,
    decreases f.len(),
{
    law_merge_keeps_existing(a, f);
    assert forall|i: int| #![trigger a[i]] 0 <= i < a.len() implies exists|j: int|
        0 <= j < merged(a, f).len() && (#[trigger] merged(a, f)[j]).name == a[i].name by {
        assert(merged(a, f)[i].name == a[i].name);
    }
    if f.len() > 0 {
        let pf = f.drop_last();
        law_merge_covers(a, pf);
        let m = merged(a, pf);
        let x = f.last();
        lemma_name_index(m, x.name);
        let r = merged(a, f);
        assert(r == merge_one(m, x));
        // What `m` holds, `r` holds at the same place.
        assert forall|j: int| 0 <= j < m.len() implies #[trigger] r[j].name == m[j].name by {}
        assert forall|i: int| #![trigger f[i]] 0 <= i < f.len() implies exists|j: int|
            0 <= j < r.len() && (#[trigger] r[j]).name == f[i].name by {
            if i < pf.len() {
                assert(f[i] == pf[i]);
                let j = choose|j: int| 0 <= j < m.len() && (#[trigger] m[j]).name == pf[i].name;
                assert(r[j].name == m[j].name);
            } else {
                let k = name_index(m, x.name);
                if k >= 0 {
                    assert(r[k].name == x.name);
                } else {
                    assert(r[m.len() as int] == x);
                }
            }
        }
    }
}

/// Names that occur once.
pub open spec fn distinct_names(s: Seq<SkillView>) -> bool {
    forall|i: int, j: int| 0 <= i < j < s.len() ==> s[i].name != s[j].name
}

/// Merging into a list without repeated names adds no repeated name.
pub proof fn law_merge_distinct(a: Seq<SkillView>, f: Seq<SkillView>)
    requires
        distinct_names(a),
    ensures
        distinct_names(merged(a, f)),
    decreases f.len(),
{
    if f.len() > 0 {
        law_merge_distinct(a, f.drop_last());
        let m = merged(a, f.drop_last());
        let x = f.last();
        lemma_name_index(m, x.name);
        let r = merged(a, f);
        if name_index(m, x.name) < 0 {
            assert(r == m.push(x));
            assert forall|i: int, j: int| 0 <= i < j < r.len() implies r[i].name != r[j].name by {
                if j == m.len() {
                    assert(r[i] == m[i]);
                } else {
                    assert(r[i] == m[i] && r[j] == m[j]);
                }
            }
        } else {
            assert forall|i: int, j: int| 0 <= i < j < r.len() implies r[i].name != r[j].name by {
                assert(r[i].name == m[i].name && r[j].name == m[j].name);
            }
        }
    }
}

/// The skills of a page keep real names only: those from attributes and
/// from JSON alike, merged, never hold `魅力`.
pub proof fn law_page_skills_kept(
    entries: Seq<(Option<Seq<char>>, Option<Seq<char>>)>,
    texts: Seq<Seq<char>>,
)
    ensures
        all_kept(merged(skills_of_attributes(entries), skills_in_texts(texts))),
{
    law_attribute_skills_kept(entries);
    law_json_texts_kept(texts);
    lemma_merge_kept(skills_of_attributes(entries), skills_in_texts(texts));
}

proof fn lemma_merge_kept(a: Seq<SkillView>, f: Seq<SkillView>)
    requires
        all_kept(a),
        all_kept(f),
    ensures
        all_kept(merged(a, f)),
    decreases f.len(),
{
    if f.len() > 0 {
        assert forall|i: int| 0 <= i < f.drop_last().len() implies kept_skill(
            #[trigger] f.drop_last()[i],
        ) by {
            assert(f.drop_last()[i] == f[i]);
        }
        lemma_merge_kept(a, f.drop_last());
        let m = merged(a, f.drop_last());
        let x = f.last();
        assert(kept_skill(x));
        lemma_name_index(m, x.name);
        let r = merged(a, f);
        assert forall|i: int| 0 <= i < r.len() implies kept_skill(#[trigger] r[i]) by {
            if i < m.len() {
                assert(kept_skill(m[i]));
            }
        }
    }
}

// ---------------------------------------------------------------------------
// Blank lines
// ---------------------------------------------------------------------------

/// No two empty lines in a row, no empty first line, and no line that ends
/// in whitespace.
pub open spec fn tidy_lines(c: Seq<Seq<char>>) -> bool {
    &&& forall|i: int, j: int|
        #![trigger c[i], c[j]]
        0 <= i && j == i + 1 && j < c.len() ==> !(c[i].len() == 0 && c[j].len() == 0)
    &&& c.len() > 0 ==> c[0].len() > 0
    &&& forall|i: int|
        0 <= i < c.len() ==> (#[trigger] c[i]).len() == 0 || !is_whitespace(c[i].last())
}

proof fn lemma_collapse_tidy(s: Seq<Seq<char>>)
    ensures
        tidy_lines(collapse_blank(s).0),
        collapse_blank(s).0.len() > 0 && collapse_blank(s).0.last().len() == 0 ==> collapse_blank(
            s,
        ).1,
    decreases s.len(),
{
    if s.len() > 0 {
        lemma_collapse_tidy(s.drop_last());
        let (c, prev) = collapse_blank(s.drop_last());
        let t = trim_end(s.last());
        lemma_trim_end_prefix(s.last(), CharClass::Whitespace);
        let r = collapse_blank(s).0;
        if t.len() == 0 {
            if !prev && c.len() > 0 {
                assert(r == c.push(seq![]));
                assert forall|i: int| 0 <= i < r.len() implies (#[trigger] r[i]).len() == 0
                    || !is_whitespace(r[i].last()) by {
                    if i < c.len() {
                        assert(r[i] == c[i]);
                    }
                }
            }
        } else {
            assert(r == c.push(t));
            assert forall|i: int| 0 <= i < r.len() implies (#[trigger] r[i]).len() == 0
                || !is_whitespace(r[i].last()) by {
                if i < c.len() {
                    assert(r[i] == c[i]);
                }
            }
        }
    }
}

proof fn lemma_drop_trailing_empty(c: Seq<Seq<char>>)
    requires
        tidy_lines(c),
    ensures
        tidy_lines(drop_trailing_empty(c)),
        drop_trailing_empty(c).len() > 0 ==> drop_trailing_empty(c).last().len() > 0,
    decreases c.len(),
{
    if c.len() > 0 && c.last().len() == 0 {
        let d = c.drop_last();
        assert forall|i: int| 0 <= i < d.len() implies (#[trigger] d[i]).len() == 0
            || !is_whitespace(d[i].last()) by {
            assert(d[i] == c[i]);
        }
        lemma_drop_trailing_empty(d);
    }
}

/// The lines written out have no blank line at either end, never two blank
/// lines in a row, and no trailing whitespace.
pub proof fn law_normalized_lines_tidy(s: Seq<Seq<char>>)
    ensures
        tidy_lines(normalized_lines(s)),
        normalized_lines(s).len() > 0 ==> normalized_lines(s).last().len() > 0,
{
    lemma_collapse_tidy(s);
    lemma_drop_trailing_empty(collapse_blank(s).0);
}

proof fn lemma_drop_leading_blank(s: Seq<Seq<char>>)
    ensures
        drop_leading_blank(s).len() <= s.len(),
        drop_leading_blank(s) == s.subrange(s.len() - drop_leading_blank(s).len(), s.len() as int),
        drop_leading_blank(s).len() > 0 ==> !is_blank(drop_leading_blank(s)[0]),
        forall|j: int| 0 <= j < s.len() - drop_leading_blank(s).len() ==> is_blank(s[j]),
    decreases s.len(),
{
    if s.len() > 0 && is_blank(s[0]) {
        lemma_drop_leading_blank(s.drop_first());
        let t = drop_leading_blank(s.drop_first());
        assert(s.drop_first().subrange(s.len() - 1 - t.len(), s.len() - 1) =~= s.subrange(
            s.len() - t.len(),
            s.len() as int,
        ));
        assert forall|j: int| 0 <= j < s.len() - t.len() implies is_blank(s[j]) by {
            if j > 0 {
                assert(s[j] == s.drop_first()[j - 1]);
            }
        }
    } else {
        assert(s.subrange(0, s.len() as int) =~= s);
    }
}

proof fn lemma_drop_trailing_blank(s: Seq<Seq<char>>)
    ensures
        drop_trailing_blank(s).len() <= s.len(),
        drop_trailing_blank(s) == s.subrange(0, drop_trailing_blank(s).len() as int),
        drop_trailing_blank(s).len() > 0 ==> !is_blank(drop_trailing_blank(s).last()),
        forall|j: int| drop_trailing_blank(s).len() <= j < s.len() ==> is_blank(s[j]),
    decreases s.len(),
{
    if s.len() > 0 && is_blank(s.last()) {
        lemma_drop_trailing_blank(s.drop_last());
        let t = drop_trailing_blank(s.drop_last());
        assert(s.drop_last().subrange(0, t.len() as int) =~= s.subrange(0, t.len() as int));
        assert forall|j: int| t.len() <= j < s.len() implies is_blank(s[j]) by {
            if j < s.len() - 1 {
                assert(s[j] == s.drop_last()[j]);
            }
        }
    } else {
        assert(s.subrange(0, s.len() as int) =~= s);
    }
}

/// How many blank lines open `s`.
pub open spec fn leading_blank_count(s: Seq<Seq<char>>) -> int {
    s.len() - drop_leading_blank(s).len()
}

/// Trimming blank lines keeps a contiguous run of the lines: everything
/// dropped is blank, and what is kept starts and ends with a non-blank line.
pub proof fn law_trim_blank_lines(s: Seq<Seq<char>>)
    ensures
        ({
            let t = trim_blank_lines(s);
            let a = leading_blank_count(s);
            &&& 0 <= a
            &&& a + t.len() <= s.len()
            &&& t == s.subrange(a, a + t.len())
            &&& forall|j: int| 0 <= j < a ==> is_blank(#[trigger] s[j])
            &&& forall|j: int| a + t.len() <= j < s.len() ==> is_blank(#[trigger] s[j])
        }),
        trim_blank_lines(s).len() > 0 ==> !is_blank(trim_blank_lines(s)[0]) && !is_blank(
            trim_blank_lines(s).last(),
        ),
{
    lemma_drop_leading_blank(s);
    let l = drop_leading_blank(s);
    lemma_drop_trailing_blank(l);
    let t = drop_trailing_blank(l);
    let a = s.len() - l.len();
    assert(t =~= s.subrange(a, a + t.len()));
    assert forall|j: int| a + t.len() <= j < s.len() implies is_blank(s[j]) by {
        assert(s[j] == l[j - a]);
    }
    if t.len() > 0 {
        assert(t[0] == l[0]);
    }
}

// ---------------------------------------------------------------------------
// Sections
// ---------------------------------------------------------------------------

/// The icon section and a section about `魅力` never reach the output.
pub proof fn law_removed_sections(s: SectionView, skills: Seq<SkillView>)
    requires
        title_of(s.heading) == "アイコン画像"@ || title_of(s.heading) == "魅力"@,
    ensures
        section_output(s, skills) is None,
{
}

/// A section other than the status, character detail and rendered skill
/// sections keeps only lines that are not noise below its heading: in
/// particular no `魅力` item survives.
pub proof fn law_plain_section_drops_noise(s: SectionView, skills: Seq<SkillView>)
    requires
        title_of(s.heading) != "ステータス"@,
        title_of(s.heading) != "キャラクター詳細"@,
        !(title_of(s.heading) == "スキル"@ && skills.len() > 0),
    ensures
        section_output(s, skills) matches Some(out) ==> forall|i: int|
            2 <= i < out.len() ==> !crate::line_rules::noise_line(#[trigger] out[i]),
{
    let title = title_of(s.heading);
    if let Some(out) = section_output(s, skills) {
        let items = crate::sheet::item_section_title(title);
        let p1 = |l: Seq<char>| !crate::line_rules::empty_item(l) && !crate::line_rules::noise_line(l);
        let p2 = |l: Seq<char>| !crate::line_rules::noise_line(l);
        let body = if items {
            s.body.filter(p1)
        } else {
            s.body.filter(p2)
        };
        law_trim_blank_lines(body);
        let t = trim_blank_lines(body);
        let a = leading_blank_count(body);
        assert(out == seq![s.heading, seq![]] + t);
        assert forall|i: int| 2 <= i < out.len() implies !crate::line_rules::noise_line(
            #[trigger] out[i],
        ) by {
            assert(out[i] == t[i - 2]);
            assert(t[i - 2] == body[a + i - 2]);
            if items {
                s.body.lemma_filter_pred(p1, a + i - 2);
            } else {
                s.body.lemma_filter_pred(p2, a + i - 2);
            }
        }
    }
}

/// The cleaned Markdown is empty or a list of tidy lines, each ended by a
/// line feed: no blank line at either end, never two blank lines in a row,
/// no trailing whitespace.
pub proof fn law_cleaned_markdown_tidy(markdown: Seq<char>, skills: Seq<SkillView>)
    ensures
        exists|c: Seq<Seq<char>>|
            #![trigger tidy_lines(c)]
            tidy_lines(c) && (c.len() > 0 ==> c.last().len() > 0) && crate::sheet::cleaned_markdown(
                markdown,
                skills,
            ) == if c.len() == 0 {
                Seq::<char>::empty()
            } else {
                crate::text::join(c, "\n"@) + "\n"@
            },
{
    let (pre, secs) = crate::markdown::split_spec(crate::markdown::initial_lines(markdown));
    let all = crate::sheet::sections_output(
        pre.filter(|l: Seq<char>| !crate::line_rules::noise_line(l)),
        secs,
        skills,
    );
    law_normalized_lines_tidy(all);
    let c = normalized_lines(all);
    assert(tidy_lines(c));
}

// ---------------------------------------------------------------------------
// The discarded attribute in the character detail section
// ---------------------------------------------------------------------------

/// A line that, trimmed, is not about `魅力`.
pub open spec fn not_charm(l: Seq<char>) -> bool {
    !crate::line_rules::charm_line(crate::text::trim(l))
}

proof fn lemma_class_start_kept(y: Seq<char>, k: CharClass)
    requires
        y.len() > 0,
        !crate::text::in_class(y[0], k),
    ensures
        crate::text::trim_start_class(y, k) == y,
        crate::text::trim_class(y, k).len() > 0,
        crate::text::trim_class(y, k)[0] == y[0],
{
    lemma_trim_end_prefix(y, k);
    let t = crate::text::trim_end_class(y, k);
    if t.len() == 0 {
        assert(crate::text::in_class(y[0], k));
    }
    assert(t[0] == y[0]);
}

proof fn lemma_trim_idempotent(s: Seq<char>)
    ensures
        crate::text::trim(crate::text::trim(s)) == crate::text::trim(s),
{
    let t = crate::text::trim(s);
    crate::text::lemma_trim_class_ends(s, CharClass::Whitespace);
    if t.len() > 0 {
        assert(crate::text::trim_start_class(t, CharClass::Whitespace) == t);
        assert(crate::text::trim_end_class(t, CharClass::Whitespace) == t);
    }
}

/// A trimmed line that starts with `#` is not about `魅力`.
proof fn lemma_hash_line_not_charm(x: Seq<char>)
    requires
        x.len() > 0,
        x[0] == '#',
    ensures
        !crate::line_rules::charm_line(x),
        crate::line_rules::clean_marker(x).len() > 0,
        crate::line_rules::clean_marker(x)[0] == '#',
{
    lemma_class_start_kept(x, CharClass::Whitespace);
    let a = crate::text::trim(x);
    assert(crate::text::trim_start_class(a, CharClass::ListMarker) == a);
    lemma_class_start_kept(a, CharClass::Whitespace);
    let b = crate::text::trim(a);
    lemma_class_start_kept(b, CharClass::Star);
    let c = crate::text::trim_class(b, CharClass::Star);
    lemma_class_start_kept(c, CharClass::FullWidthStar);
    let d = crate::text::trim_class(c, CharClass::FullWidthStar);
    lemma_class_start_kept(d, CharClass::Whitespace);
    let e = crate::line_rules::clean_marker(x);
    assert(e.len() > 0 && e[0] == '#');
    reveal_strlit("魅力");
    reveal_strlit("魅力:");
    reveal_strlit("魅力：");
    if crate::text::starts_with(e, "魅力:"@) {
        assert(e[0] == "魅力:"@[0]);
    }
    if crate::text::starts_with(e, "魅力："@) {
        assert(e[0] == "魅力："@[0]);
    }
}

proof fn lemma_empty_not_charm()
    ensures
        not_charm(seq![]),
{
    let z = Seq::<char>::empty();
    assert(crate::text::trim_start_class(z, CharClass::Whitespace) == z);
    assert(crate::text::trim_end_class(z, CharClass::Whitespace) == z);
    assert(crate::text::trim_start_class(z, CharClass::ListMarker) == z);
    assert(crate::text::trim_start_class(z, CharClass::Star) == z);
    assert(crate::text::trim_end_class(z, CharClass::Star) == z);
    assert(crate::text::trim_start_class(z, CharClass::FullWidthStar) == z);
    assert(crate::text::trim_end_class(z, CharClass::FullWidthStar) == z);
    assert(crate::line_rules::clean_marker(z) == z);
    reveal_strlit("魅力");
    reveal_strlit("魅力:");
    reveal_strlit("魅力：");
}

/// A character that a line titled by a known sub-heading can hold: `#`,
/// whitespace, or one of the letters the sub-headings are written in.
pub open spec fn subheading_char(c: char) -> bool {
    c == '#' || is_whitespace(c) || (c as u32 > 0x3000 && c != 'お')
}

proof fn lemma_title_chars(title: Seq<char>)
    requires
        crate::line_rules::detail_subheadings().contains(title),
    ensures
        title.len() > 0,
        title != "魅力"@,
        forall|m: int|
            0 <= m < title.len() ==> #[trigger] title[m] as u32 > 0x3000 && title[m] != 'お',
        !is_whitespace(title[0]),
        title[0] != '#',
        !is_whitespace(title.last()),
{
    reveal_strlit("基本設定");
    reveal_strlit("外見");
    reveal_strlit("性格");
    reveal_strlit("口調");
    reveal_strlit("経歴");
    reveal_strlit("特技と役割");
    reveal_strlit("その他の特徴");
    reveal_strlit("魅力");
    let subs = crate::line_rules::detail_subheadings();
    let k = choose|k: int| 0 <= k < subs.len() && subs[k] == title;
    assert(k == 0 || k == 1 || k == 2 || k == 3 || k == 4 || k == 5 || k == 6);
    if title == "魅力"@ {
        assert(title[0] == "魅力"@[0]);
    }
}

proof fn lemma_not_contains(s: Seq<char>, p: Seq<char>)
    requires
        p.len() > 0,
        !subheading_char(p[0]),
        forall|j: int| 0 <= j < s.len() ==> subheading_char(#[trigger] s[j]),
    ensures
        !crate::text::contains(s, p),
{
    if crate::text::contains(s, p) {
        let i = choose|i: int| crate::text::occurs_at(s, p, i);
        assert(s.subrange(i, i + p.len())[0] == s[i]);
    }
}

/// A line made of sub-heading characters embeds no image and is no footer.
proof fn lemma_subheading_chars_no_image_or_footer(t: Seq<char>)
    requires
        forall|j: int| 0 <= j < t.len() ==> subheading_char(#[trigger] t[j]),
    ensures
        !crate::line_rules::image_line(t),
        !crate::line_rules::footer_line(t),
{
    assert(crate::text::lower(t) =~= t);
    reveal_strlit("![");
    reveal_strlit("<img");
    reveal_strlit("data:image");
    reveal_strlit(";base64");
    reveal_strlit("Steamストア");
    reveal_strlit("お問い合わせ");
    reveal_strlit("X(Twitter)");
    reveal_strlit("Discord");
    reveal_strlit("©Dagdoria Studio");
    reveal_strlit("©Mare Inc.");
    reveal_strlit("dagdoria studio");
    reveal_strlit("mare inc");
    reveal_strlit("twitter.com");
    reveal_strlit("discord");
    reveal_strlit("store.steampowered.com");
    lemma_not_contains(t, "!["@);
    lemma_not_contains(t, "<img"@);
    lemma_not_contains(t, "data:image"@);
    lemma_not_contains(t, ";base64"@);
    lemma_not_contains(t, "Steamストア"@);
    lemma_not_contains(t, "お問い合わせ"@);
    lemma_not_contains(t, "X(Twitter)"@);
    lemma_not_contains(t, "Discord"@);
    lemma_not_contains(t, "©Dagdoria Studio"@);
    lemma_not_contains(t, "©Mare Inc."@);
    lemma_not_contains(t, "dagdoria studio"@);
    lemma_not_contains(t, "mare inc"@);
    lemma_not_contains(t, "twitter.com"@);
    lemma_not_contains(t, "discord"@);
    lemma_not_contains(t, "store.steampowered.com"@);
}

/// A line whose title is a known sub-heading is made of sub-heading
/// characters.
proof fn lemma_heading_line_chars(t: Seq<char>)
    requires
        crate::line_rules::detail_subheadings().contains(title_of(t)),
    ensures
        forall|j: int| 0 <= j < t.len() ==> subheading_char(#[trigger] t[j]),
{
    let title = title_of(t);
    lemma_title_chars(title);
    let rest = crate::text::trim_start_class(t, CharClass::Hash);
    crate::text::lemma_trim_start_suffix(t, CharClass::Hash);
    let r1 = crate::text::trim_start_class(rest, CharClass::Whitespace);
    crate::text::lemma_trim_start_suffix(rest, CharClass::Whitespace);
    lemma_trim_end_prefix(r1, CharClass::Whitespace);
    let a = t.len() - rest.len();
    let b = rest.len() - r1.len();
    assert forall|j: int| 0 <= j < t.len() implies subheading_char(#[trigger] t[j]) by {
        if j < a {
            assert(crate::text::in_class(t[j], CharClass::Hash));
        } else {
            assert(t[j] == rest[j - a]);
            if j - a < b {
                assert(crate::text::in_class(rest[j - a], CharClass::Whitespace));
            } else {
                assert(rest[j - a] == r1[j - a - b]);
                if j - a - b < title.len() {
                    assert(r1[j - a - b] == title[j - a - b]);
                } else {
                    assert(crate::text::in_class(r1[j - a - b], CharClass::Whitespace));
                }
            }
        }
    }
}

/// A trimmed line that opens with `#` and whose title is a known
/// sub-heading is no noise.
proof fn lemma_heading_not_noise(line: Seq<char>)
    requires
        crate::text::trim(line).len() > 0,
        crate::text::trim(line)[0] == '#',
        crate::line_rules::detail_subheadings().contains(title_of(crate::text::trim(line))),
    ensures
        !crate::line_rules::noise_line(line),
{
    let t = crate::text::trim(line);
    lemma_title_chars(title_of(t));
    lemma_heading_line_chars(t);
    lemma_subheading_chars_no_image_or_footer(t);
    lemma_hash_line_not_charm(t);
    let c = crate::line_rules::clean_marker(t);
    reveal_strlit("-");
    reveal_strlit("*");
    reveal_strlit("空白");
    if c == "-"@ {
        assert(c[0] == "-"@[0]);
    }
    if c == "*"@ {
        assert(c[0] == "*"@[0]);
    }
    if c == "空白"@ {
        assert(c[0] == "空白"@[0]);
    }
    assert(!crate::line_rules::empty_item(t));
    if crate::line_rules::useless_status_marker(t) {
        assert(c[0] == '*' || c[0] == '＊');
    }
    lemma_class_start_kept(t, CharClass::Whitespace);
    assert(!crate::line_rules::empty_table_row(t));
    assert(!crate::line_rules::empty_heading(t));
}

proof fn lemma_title_of_rebuilt(title: Seq<char>)
    requires
        crate::line_rules::detail_subheadings().contains(title),
    ensures
        crate::text::trim("### "@ + title) == "### "@ + title,
        title_of("### "@ + title) == title,
{
    lemma_title_chars(title);
    reveal_strlit("### ");
    let h = "### "@ + title;
    assert(h[0] == '#' && h[1] == '#' && h[2] == '#' && h[3] == ' ');
    assert(h.last() == title.last());
    lemma_class_start_kept(h, CharClass::Whitespace);
    assert(crate::text::trim_end_class(h, CharClass::Whitespace) == h);
    let rest = crate::text::trim_start_class(h, CharClass::Hash);
    crate::text::lemma_trim_start_suffix(h, CharClass::Hash);
    let a = h.len() - rest.len();
    if a > 3 {
        assert(crate::text::in_class(h[3], CharClass::Hash));
    }
    if a < 3 {
        assert(rest[0] == h[a]);
    }
    assert(rest =~= " "@ + title) by {
        reveal_strlit(" ");
        assert(h.subrange(3, h.len() as int) =~= " "@ + title);
    }
    reveal_strlit(" ");
    let r1 = crate::text::trim_start_class(rest, CharClass::Whitespace);
    crate::text::lemma_trim_start_suffix(rest, CharClass::Whitespace);
    let b = rest.len() - r1.len();
    assert(rest[0] == ' ' && rest[1] == title[0]);
    if b > 1 {
        assert(crate::text::in_class(rest[1], CharClass::Whitespace));
    }
    if b < 1 {
        assert(r1[0] == rest[0]);
    }
    assert(r1 =~= title);
    assert(crate::text::trim_end_class(title, CharClass::Whitespace) == title);
}

/// A line kept below the character detail heading: it is no noise (in
/// particular no line about `魅力`), it does not open the `魅力` part, and
/// when it names a known sub-heading it is a `###` heading.
pub open spec fn detail_line_kept(l: Seq<char>) -> bool {
    let t = crate::text::trim(l);
    &&& !crate::line_rules::detail_charm_heading(t)
    &&& !crate::line_rules::noise_line(l)
    &&& crate::line_rules::detail_valid_heading(t) ==> crate::text::starts_with(
        crate::text::trim_start_class(l, CharClass::Whitespace),
        "### "@,
    )
}

pub open spec fn all_detail_kept(ls: Seq<Seq<char>>) -> bool {
    forall|i: int| 0 <= i < ls.len() ==> detail_line_kept(#[trigger] ls[i])
}

proof fn lemma_empty_detail_kept()
    ensures
        detail_line_kept(seq![]),
{
    lemma_empty_not_charm();
    let z = Seq::<char>::empty();
    assert(title_of(z) == z);
    reveal_strlit("魅力");
    if crate::line_rules::detail_subheadings().contains(z) {
        lemma_title_chars(z);
    }
}

proof fn lemma_detail_fold_kept(ls: Seq<Seq<char>>)
    ensures
        all_detail_kept(crate::sheet::detail_fold(ls).0),
    decreases ls.len(),
{
    if ls.len() > 0 {
        lemma_detail_fold_kept(ls.drop_last());
        let (body, skipping) = crate::sheet::detail_fold(ls.drop_last());
        let line = ls.last();
        let t = crate::text::trim(line);
        let out = crate::sheet::detail_fold(ls).0;
        if crate::line_rules::detail_charm_heading(t) {
        } else if crate::line_rules::detail_valid_heading(t) {
            let title = title_of(t);
            reveal_strlit("### ");
            let pushed = if crate::text::starts_with(t, "### "@) {
                assert(t[0] == "### "@[0]);
                lemma_heading_not_noise(line);
                let ts = crate::text::trim_start_class(line, CharClass::Whitespace);
                lemma_trim_end_prefix(ts, CharClass::Whitespace);
                assert(ts.subrange(0, 4) =~= t.subrange(0, 4));
                line
            } else {
                let h = "### "@ + title;
                lemma_title_of_rebuilt(title);
                lemma_title_chars(title);
                assert(h[0] == '#');
                lemma_heading_not_noise(h);
                lemma_class_start_kept(h, CharClass::Whitespace);
                assert(h.subrange(0, 4) =~= "### "@);
                h
            };
            assert(detail_line_kept(pushed));
            assert(out == body.push(pushed));
            assert forall|i: int| 0 <= i < out.len() implies detail_line_kept(#[trigger] out[i]) by {
                if i < body.len() {
                    assert(out[i] == body[i]);
                }
            }
        } else if skipping || crate::line_rules::noise_line(t) {
        } else {
            lemma_trim_idempotent(line);
            assert(!crate::line_rules::noise_line(line));
            assert(out == body.push(line));
            assert forall|i: int| 0 <= i < out.len() implies detail_line_kept(#[trigger] out[i]) by {
                if i < body.len() {
                    assert(out[i] == body[i]);
                }
            }
        }
    }
}

/// Every line satisfies `p`.
pub open spec fn all_lines(ls: Seq<Seq<char>>, p: spec_fn(Seq<char>) -> bool) -> bool {
    forall|i: int| 0 <= i < ls.len() ==> p(#[trigger] ls[i])
}

proof fn lemma_all_concat(a: Seq<Seq<char>>, b: Seq<Seq<char>>, p: spec_fn(Seq<char>) -> bool)
    requires
        all_lines(a, p),
        all_lines(b, p),
    ensures
        all_lines(a + b, p),
{
    assert forall|i: int| 0 <= i < (a + b).len() implies p(#[trigger] (a + b)[i]) by {
        if i < a.len() {
            assert((a + b)[i] == a[i]);
        } else {
            assert((a + b)[i] == b[i - a.len()]);
        }
    }
}

proof fn lemma_all_trim_blank(b: Seq<Seq<char>>, p: spec_fn(Seq<char>) -> bool)
    requires
        all_lines(b, p),
    ensures
        all_lines(trim_blank_lines(b), p),
{
    law_trim_blank_lines(b);
    let t = trim_blank_lines(b);
    let a = leading_blank_count(b);
    assert forall|i: int| 0 <= i < t.len() implies p(#[trigger] t[i]) by {
        assert(t[i] == b[a + i]);
    }
}

proof fn lemma_all_flush(
    out: Seq<Seq<char>>,
    h: Option<Seq<char>>,
    body: Seq<Seq<char>>,
    p: spec_fn(Seq<char>) -> bool,
)
    requires
        all_lines(out, p),
        h matches Some(x) ==> p(x),
        all_lines(body, p),
        p(seq![]),
    ensures
        all_lines(crate::sheet::flush_h3(out, h, body), p),
{
    if let Some(x) = h {
        let cleaned = trim_blank_lines(body);
        if !crate::markdown::body_is_empty(cleaned) {
            lemma_all_trim_blank(body, p);
            let sep = if out.len() > 0 && out.last().len() != 0 {
                out.push(seq![])
            } else {
                out
            };
            lemma_all_concat(out, seq![Seq::<char>::empty()], p);
            assert(out.push(seq![]) == out + seq![Seq::<char>::empty()]);
            let head = sep.push(x).push(seq![]);
            lemma_all_concat(sep, seq![x, Seq::<char>::empty()], p);
            assert(head == sep + seq![x, Seq::<char>::empty()]);
            lemma_all_concat(head, cleaned, p);
        }
    }
}

proof fn lemma_all_h3_fold(ls: Seq<Seq<char>>, p: spec_fn(Seq<char>) -> bool)
    requires
        all_lines(ls, p),
        p(seq![]),
    ensures
        ({
            let (out, h, body) = crate::sheet::h3_fold(ls);
            &&& all_lines(out, p)
            &&& h matches Some(x) ==> p(x)
            &&& all_lines(body, p)
        }),
    decreases ls.len(),
{
    if ls.len() > 0 {
        let pre = ls.drop_last();
        assert forall|i: int| 0 <= i < pre.len() implies p(#[trigger] pre[i]) by {
            assert(pre[i] == ls[i]);
        }
        lemma_all_h3_fold(pre, p);
        let (out, h, body) = crate::sheet::h3_fold(pre);
        let l = ls.last();
        assert(p(l));
        if crate::sheet::h3_line(l) {
            lemma_all_flush(out, h, body, p);
        } else if h is Some {
            lemma_all_concat(body, seq![l], p);
            assert(body.push(l) == body + seq![l]);
        } else {
            lemma_all_concat(out, seq![l], p);
            assert(out.push(l) == out + seq![l]);
        }
    }
}

/// The kept lines of the character detail section, once the `###` parts
/// without content are gone and the blank lines at either end trimmed,
/// satisfy what the lines read from its body do.
proof fn lemma_detail_body_all(s: SectionView, p: spec_fn(Seq<char>) -> bool)
    requires
        all_lines(crate::sheet::detail_fold(s.body).0, p),
        p(seq![]),
    ensures
        crate::sheet::detail_section(s) matches Some(out) ==> forall|i: int|
            2 <= i < out.len() ==> p(#[trigger] out[i]),
{
    let folded = crate::sheet::detail_fold(s.body).0;
    lemma_all_h3_fold(folded, p);
    let (o, h, b) = crate::sheet::h3_fold(folded);
    lemma_all_flush(o, h, b, p);
    let body = crate::sheet::without_empty_h3(folded);
    if let Some(out) = crate::sheet::detail_section(s) {
        lemma_all_trim_blank(body, p);
        let t = trim_blank_lines(body);
        assert(out == seq![s.heading, seq![]] + t);
        assert forall|i: int| 2 <= i < out.len() implies p(#[trigger] out[i]) by {
            assert(out[i] == t[i - 2]);
        }
    }
}

pub open spec fn detail_kept_pred() -> spec_fn(Seq<char>) -> bool {
    |l: Seq<char>| detail_line_kept(l)
}

/// Below its heading, the character detail section holds no noise (so no
/// line about `魅力`), no line that opens the `魅力` part, and every line
/// that names a known sub-heading is a `###` heading.
pub proof fn law_detail_section_lines(s: SectionView)
    ensures
        crate::sheet::detail_section(s) matches Some(out) ==> forall|i: int|
            2 <= i < out.len() ==> detail_line_kept(#[trigger] out[i]),
{
    lemma_detail_fold_kept(s.body);
    lemma_empty_detail_kept();
    let folded = crate::sheet::detail_fold(s.body).0;
    assert forall|i: int| 0 <= i < folded.len() implies detail_kept_pred()(#[trigger] folded[i]) by {
    }
    lemma_detail_body_all(s, detail_kept_pred());
    if let Some(out) = crate::sheet::detail_section(s) {
        assert forall|i: int| 2 <= i < out.len() implies detail_line_kept(#[trigger] out[i]) by {
            assert(detail_kept_pred()(out[i]));
        }
    }
}

// ---------------------------------------------------------------------------
// The skill section
// ---------------------------------------------------------------------------

/// The line that opens a skill in the skill section.
pub open spec fn skill_heading_line(s: SkillView) -> Seq<char> {
    match s.description {
        Some(_) => "### "@ + s.name,
        None => "- "@ + s.name,
    }
}

proof fn lemma_skill_blocks_hold_headings(skills: Seq<SkillView>)
    ensures
        forall|i: int|
            0 <= i < skills.len() ==> crate::skills::skill_blocks(skills).contains(
                skill_heading_line(#[trigger] skills[i]),
            ),
    decreases skills.len(),
{
    if skills.len() > 0 {
        let pre = skills.drop_last();
        lemma_skill_blocks_hold_headings(pre);
        let a = crate::skills::skill_blocks(pre);
        let b = crate::skills::skill_block(skills.last());
        let all = crate::skills::skill_blocks(skills);
        assert(all == a + b);
        assert forall|i: int| 0 <= i < skills.len() implies all.contains(
            skill_heading_line(#[trigger] skills[i]),
        ) by {
            if i < pre.len() {
                assert(skills[i] == pre[i]);
                let k = choose|k: int| 0 <= k < a.len() && a[k] == skill_heading_line(pre[i]);
                assert(all[k] == a[k]);
            } else {
                assert(b[0] == skill_heading_line(skills.last()));
                assert(all[a.len() as int] == b[0]);
            }
        }
    }
}

proof fn lemma_not_blank_when_first_visible(l: Seq<char>)
    requires
        l.len() > 0,
        !is_whitespace(l[0]),
    ensures
        !is_blank(l),
{
    lemma_class_start_kept(l, CharClass::Whitespace);
}

/// The rendered skill section names every skill: a `### name` heading for a
/// skill with a description, a `- name` item for one without.
pub proof fn law_skill_section_lists_every_skill(heading: Seq<char>, skills: Seq<SkillView>)
    ensures
        forall|i: int|
            0 <= i < skills.len() ==> trim_blank_lines(
                seq![heading, seq![]] + crate::skills::skill_blocks(skills),
            ).contains(skill_heading_line(#[trigger] skills[i])),
{
    let full = seq![heading, Seq::<char>::empty()] + crate::skills::skill_blocks(skills);
    lemma_skill_blocks_hold_headings(skills);
    law_trim_blank_lines(full);
    let t = trim_blank_lines(full);
    let a = leading_blank_count(full);
    assert forall|i: int| 0 <= i < skills.len() implies t.contains(
        skill_heading_line(#[trigger] skills[i]),
    ) by {
        let h = skill_heading_line(skills[i]);
        let blocks = crate::skills::skill_blocks(skills);
        let k = choose|k: int| 0 <= k < blocks.len() && blocks[k] == h;
        let p = k + 2;
        assert(full[p] == h);
        reveal_strlit("### ");
        reveal_strlit("- ");
        assert(h[0] == '#' || h[0] == '-');
        lemma_not_blank_when_first_visible(h);
        assert(a <= p < a + t.len());
        assert(t[p - a] == h);
    }
}

// ---------------------------------------------------------------------------
// The shape of kept sections
// ---------------------------------------------------------------------------

proof fn lemma_kept_body(b: Seq<Seq<char>>)
    requires
        !crate::markdown::body_is_empty(b),
    ensures
        trim_blank_lines(b).len() > 0,
        !is_blank(trim_blank_lines(b).last()),
{
    law_trim_blank_lines(b);
    let k = choose|k: int| 0 <= k < b.len() && !crate::markdown::placeholder_line(b[k]);
    assert(!is_blank(b[k]));
    let t = trim_blank_lines(b);
    let a = leading_blank_count(b);
    if t.len() == 0 {
        if k < a {
            assert(is_blank(b[k]));
        } else {
            assert(is_blank(b[k]));
        }
    }
}

proof fn lemma_titled_not_blank(h: Seq<char>)
    requires
        title_of(h).len() > 0,
    ensures
        !is_blank(h),
{
    if h.len() == 0 {
        let z = Seq::<char>::empty();
        assert(h =~= z);
        assert(crate::text::trim_start_class(z, CharClass::Hash) == z);
        assert(crate::text::trim_start_class(z, CharClass::Whitespace) == z);
        assert(crate::text::trim_end_class(z, CharClass::Whitespace) == z);
    } else if h[0] == '#' {
        lemma_class_start_kept(h, CharClass::Whitespace);
    } else {
        assert(crate::text::trim_start_class(h, CharClass::Hash) == h);
    }
}

/// Every section that reaches the output opens with its heading and an
/// empty line, has content below them, and ends with a line that is not
/// blank.
pub proof fn law_section_output_shape(s: SectionView, skills: Seq<SkillView>)
    ensures
        section_output(s, skills) matches Some(v) ==> (v.len() >= 3 && v[0] == s.heading && v[1]
            == Seq::<char>::empty() && !is_blank(v.last())),
{
    let title = title_of(s.heading);
    if let Some(v) = section_output(s, skills) {
        if title == "アイコン画像"@ || title == "魅力"@ {
        } else if title == "ステータス"@ {
            let b = status_lines(s.body, status_names());
            law_status_lines_form(s.body, status_names());
            let l = b[b.len() - 1];
            assert(status_line_of(l, status_names()));
            let (k, r) = choose|k: int, r: Seq<char>|
                0 <= k < status_names().len() && status_ranks().contains(r) && l == "- "@
                    + status_names()[k] + ": "@ + r;
            reveal_strlit("- ");
            assert(l[0] == '-');
            lemma_class_start_kept(l, CharClass::Whitespace);
            assert(v == seq![s.heading, seq![]] + b);
            assert(v.last() == l);
        } else if title == "キャラクター詳細"@ {
            let body = crate::sheet::without_empty_h3(crate::sheet::detail_fold(s.body).0);
            lemma_kept_body(body);
            assert(v == seq![s.heading, seq![]] + trim_blank_lines(body));
        } else if title == "スキル"@ && skills.len() > 0 {
            let x = seq![s.heading, seq![]] + crate::skills::skill_blocks(skills);
            reveal_strlit("スキル");
            lemma_titled_not_blank(s.heading);
            let pre = crate::skills::skill_blocks(skills.drop_last());
            let blk = crate::skills::skill_block(skills.last());
            assert(crate::skills::skill_blocks(skills) == pre + blk);
            let first = blk[0];
            reveal_strlit("### ");
            reveal_strlit("- ");
            assert(first[0] == '#' || first[0] == '-');
            lemma_class_start_kept(first, CharClass::Whitespace);
            let j0: int = 2 + pre.len() as int;
            assert(x[j0] == first);
            law_trim_blank_lines(x);
            assert(crate::markdown::drop_leading_blank(x) == x);
            let t = trim_blank_lines(x);
            if t.len() <= j0 {
                assert(is_blank(x[j0]));
            }
            assert(t[0] == x[0] && t[1] == x[1]);
        } else {
            let body = if crate::sheet::item_section_title(title) {
                s.body.filter(
                    |l: Seq<char>|
                        !crate::line_rules::empty_item(l) && !crate::line_rules::noise_line(l),
                )
            } else {
                s.body.filter(|l: Seq<char>| !crate::line_rules::noise_line(l))
            };
            lemma_kept_body(body);
            assert(v == seq![s.heading, seq![]] + trim_blank_lines(body));
        }
    }
}

// ---------------------------------------------------------------------------
// Counting sections
// ---------------------------------------------------------------------------

proof fn lemma_split_fold_count(ls: Seq<Seq<char>>)
    ensures
        ({
            let (p, secs, c) = crate::markdown::split_fold(ls);
            secs.len() + (if c is Some {
                1int
            } else {
                0int
            }) == ls.filter(|l: Seq<char>| crate::line_rules::h2_heading(l)).len()
        }),
    decreases ls.len(),
{
    if ls.len() > 0 {
        lemma_split_fold_count(ls.drop_last());
        reveal_with_fuel(Seq::filter, 1);
    }
}

/// The clean-up reads exactly one section for each `##` heading line.
pub proof fn law_section_count(ls: Seq<Seq<char>>)
    ensures
        crate::markdown::split_spec(ls).1.len() == ls.filter(
            |l: Seq<char>| crate::line_rules::h2_heading(l),
        ).len(),
{
    lemma_split_fold_count(ls);
}

// ---------------------------------------------------------------------------
// What normalizing blank lines keeps
// ---------------------------------------------------------------------------

/// Lines with at least one character.
pub open spec fn non_empty_lines() -> spec_fn(Seq<char>) -> bool {
    |l: Seq<char>| l.len() > 0
}

/// Right trimming, line by line.
pub open spec fn right_trimmed(s: Seq<Seq<char>>) -> Seq<Seq<char>> {
    s.map_values(|l: Seq<char>| trim_end(l))
}

proof fn lemma_filter_push(c: Seq<Seq<char>>, x: Seq<char>)
    ensures
        c.push(x).filter(non_empty_lines()) == if x.len() > 0 {
            c.filter(non_empty_lines()).push(x)
        } else {
            c.filter(non_empty_lines())
        },
{
    reveal_with_fuel(Seq::filter, 1);
    assert(c.push(x).drop_last() =~= c);
}

proof fn lemma_collapse_keeps_content(s: Seq<Seq<char>>)
    ensures
        collapse_blank(s).0.filter(non_empty_lines()) == right_trimmed(s).filter(
            non_empty_lines(),
        ),
    decreases s.len(),
{
    if s.len() == 0 {
        assert(right_trimmed(s) =~= Seq::<Seq<char>>::empty());
        reveal_with_fuel(Seq::filter, 1);
    } else {
        lemma_collapse_keeps_content(s.drop_last());
        let (c, prev) = collapse_blank(s.drop_last());
        let t = trim_end(s.last());
        assert(right_trimmed(s) =~= right_trimmed(s.drop_last()).push(t));
        lemma_filter_push(right_trimmed(s.drop_last()), t);
        if t.len() == 0 {
            lemma_filter_push(c, seq![]);
        } else {
            lemma_filter_push(c, t);
        }
    }
}

proof fn lemma_drop_trailing_empty_keeps_content(c: Seq<Seq<char>>)
    ensures
        drop_trailing_empty(c).filter(non_empty_lines()) == c.filter(non_empty_lines()),
    decreases c.len(),
{
    if c.len() > 0 && c.last().len() == 0 {
        lemma_drop_trailing_empty_keeps_content(c.drop_last());
        assert(c.drop_last().push(c.last()) =~= c);
        lemma_filter_push(c.drop_last(), c.last());
    }
}

/// Normalizing blank lines changes only blank lines: the lines with
/// content are the input's lines, right trimmed, in order.
pub proof fn law_normalized_keeps_content(s: Seq<Seq<char>>)
    ensures
        normalized_lines(s).filter(non_empty_lines()) == right_trimmed(s).filter(
            non_empty_lines(),
        ),
{
    lemma_collapse_keeps_content(s);
    lemma_drop_trailing_empty_keeps_content(collapse_blank(s).0);
}

// ---------------------------------------------------------------------------
// The order of statuses
// ---------------------------------------------------------------------------

/// `ks` gives, for each status line, the position in `names` of the status
/// it reports: positions grow strictly from line to line.
pub open spec fn status_positions(
    out: Seq<Seq<char>>,
    ls: Seq<Seq<char>>,
    names: Seq<Seq<char>>,
    ks: Seq<int>,
) -> bool {
    &&& ks.len() == out.len()
    &&& forall|i: int, j: int| 0 <= i < j < ks.len() ==> ks[i] < ks[j]
    &&& forall|i: int|
        0 <= i < ks.len() ==> 0 <= #[trigger] ks[i] < names.len() && crate::status::status_entry(
            ls,
            names[ks[i]],
        ) == Some(out[i])
}

proof fn lemma_status_positions(ls: Seq<Seq<char>>, names: Seq<Seq<char>>) -> (ks: Seq<int>)
    ensures
        status_positions(status_lines(ls, names), ls, names, ks),
    decreases names.len(),
{
    if names.len() == 0 {
        seq![]
    } else {
        let pre = names.drop_last();
        let kp = lemma_status_positions(ls, pre);
        assert forall|i: int| 0 <= i < kp.len() implies names[#[trigger] kp[i]] == pre[kp[i]] by {}
        match crate::status::status_entry(ls, names.last()) {
            Some(l) => {
                let ks = kp.push(names.len() - 1);
                assert forall|i: int| 0 <= i < ks.len() - 1 implies #[trigger] ks[i] == kp[i] by {}
                ks
            },
            None => kp,
        }
    }
}

/// The lines of a status section report the statuses in the order of the
/// list, each at most once.
pub proof fn law_status_order(ls: Seq<Seq<char>>, names: Seq<Seq<char>>)
    ensures
        exists|ks: Seq<int>| status_positions(status_lines(ls, names), ls, names, ks),
{
    let ks = lemma_status_positions(ls, names);
    assert(status_positions(status_lines(ls, names), ls, names, ks));
}

// ---------------------------------------------------------------------------
// New names in a merge
// ---------------------------------------------------------------------------

pub open spec fn names_of(s: Seq<SkillView>) -> Seq<Seq<char>> {
    s.map_values(|x: SkillView| x.name)
}

/// The names of the fallback that are not among `known`, in fallback
/// order, each at its first occurrence.
pub open spec fn new_names(known: Seq<Seq<char>>, f: Seq<SkillView>) -> Seq<Seq<char>>
    decreases f.len(),
{
    if f.len() == 0 {
        seq![]
    } else {
        let pre = new_names(known, f.drop_last());
        if (known + pre).contains(f.last().name) {
            pre
        } else {
            pre.push(f.last().name)
        }
    }
}

/// Merging keeps the names of the skills it starts with, in place, and
/// appends the fallback's new names in fallback order, each once.
pub proof fn law_merge_appends_new_names(a: Seq<SkillView>, f: Seq<SkillView>)
    ensures
        names_of(merged(a, f)) == names_of(a) + new_names(names_of(a), f),
    decreases f.len(),
{
    if f.len() == 0 {
        assert(names_of(a) + Seq::<Seq<char>>::empty() =~= names_of(a));
    } else {
        law_merge_appends_new_names(a, f.drop_last());
        let m = merged(a, f.drop_last());
        let x = f.last();
        let pre = new_names(names_of(a), f.drop_last());
        lemma_name_index(m, x.name);
        let i = name_index(m, x.name);
        if i < 0 {
            if names_of(m).contains(x.name) {
                let j = choose|j: int| 0 <= j < names_of(m).len() && names_of(m)[j] == x.name;
                assert(m[j].name == x.name);
            }
            assert(names_of(m.push(x)) =~= names_of(m).push(x.name));
            assert(names_of(a) + pre.push(x.name) =~= (names_of(a) + pre).push(x.name));
        } else {
            assert(names_of(m)[i] == x.name);
            assert(names_of(a) + pre == names_of(m));
            assert((names_of(a) + pre).contains(x.name));
            if m[i].description is None && x.description is Some {
                let u = m.update(i, SkillView { name: m[i].name, description: x.description });
                assert(names_of(u) =~= names_of(m));
            }
        }
    }
}

// ---------------------------------------------------------------------------
// The first pass
// ---------------------------------------------------------------------------

/// The first pass over the rendered Markdown keeps no image line and no
/// footer line.
pub proof fn law_initial_lines_drop_images_and_footers(markdown: Seq<char>)
    ensures
        forall|i: int|
            0 <= i < crate::markdown::initial_lines(markdown).len() ==> !image_line(
                #[trigger] crate::markdown::initial_lines(markdown)[i],
            ) && !footer_line(crate::markdown::initial_lines(markdown)[i]),
{
    let m = lines(markdown).map_values(|l: Seq<char>| trim_end(l));
    let p = |l: Seq<char>| !image_line(l) && !footer_line(l);
    assert forall|i: int| 0 <= i < m.filter(p).len() implies p(#[trigger] m.filter(p)[i]) by {
        m.lemma_filter_pred(p, i);
    }
}

// ---------------------------------------------------------------------------
// Normalizing twice
// ---------------------------------------------------------------------------

proof fn lemma_collapse_fixed(c: Seq<Seq<char>>)
    requires
        tidy_lines(c),
    ensures
        collapse_blank(c) == (c, c.len() > 0 && c.last().len() == 0),
    decreases c.len(),
{
    if c.len() > 0 {
        let d = c.drop_last();
        assert forall|i: int, j: int|
            #![trigger d[i], d[j]]
            0 <= i && j == i + 1 && j < d.len() implies !(d[i].len() == 0 && d[j].len() == 0) by {
            assert(d[i] == c[i] && d[j] == c[j]);
        }
        assert forall|i: int| 0 <= i < d.len() implies (#[trigger] d[i]).len() == 0
            || !is_whitespace(d[i].last()) by {
            assert(d[i] == c[i]);
        }
        if d.len() > 0 {
            assert(d[0] == c[0]);
        }
        lemma_collapse_fixed(d);
        let l = c.last();
        assert(l == c[c.len() - 1]);
        assert(trim_end(l) == l);
        if l.len() == 0 {
            assert(c.len() >= 2);
            let i = c.len() - 2;
            assert(c[i] == d.last());
            assert(!(c[i].len() == 0 && c[i + 1].len() == 0));
            assert(l =~= Seq::<char>::empty());
            assert(d.push(seq![]) =~= c);
        } else {
            assert(d.push(l) =~= c);
        }
    }
}

/// Normalizing blank lines a second time changes nothing.
pub proof fn law_normalized_lines_idempotent(s: Seq<Seq<char>>)
    ensures
        normalized_lines(normalized_lines(s)) == normalized_lines(s),
{
    let n = normalized_lines(s);
    law_normalized_lines_tidy(s);
    lemma_collapse_fixed(n);
}

// ---------------------------------------------------------------------------
// The normalized text read back into lines
// ---------------------------------------------------------------------------

/// No line holds a line break.
pub open spec fn single_lines(c: Seq<Seq<char>>) -> bool {
    forall|i: int, j: int| 0 <= i < c.len() && 0 <= j < c[i].len() ==> #[trigger] c[i][j] != '\n'
}

/// Each line followed by a line feed.
pub open spec fn terminated(c: Seq<Seq<char>>) -> Seq<char>
    decreases c.len(),
{
    if c.len() == 0 {
        seq![]
    } else {
        c[0] + "\n"@ + terminated(c.drop_first())
    }
}

proof fn lemma_terminated_push(c: Seq<Seq<char>>, x: Seq<char>)
    ensures
        terminated(c.push(x)) == terminated(c) + x + "\n"@,
    decreases c.len(),
{
    if c.len() == 0 {
        assert(c.push(x).drop_first() =~= Seq::<Seq<char>>::empty());
        assert(terminated(c.push(x).drop_first()) == Seq::<char>::empty());
        assert(c.push(x)[0] == x);
        assert(terminated(c) == Seq::<char>::empty());
        assert(terminated(c.push(x)) =~= terminated(c) + x + "\n"@);
    } else {
        lemma_terminated_push(c.drop_first(), x);
        assert(c.push(x).drop_first() =~= c.drop_first().push(x));
        assert(c.push(x)[0] == c[0]);
        assert(terminated(c.push(x)) =~= terminated(c) + x + "\n"@);
    }
}

proof fn lemma_join_terminated(c: Seq<Seq<char>>)
    requires
        c.len() > 0,
    ensures
        crate::text::join(c, "\n"@) + "\n"@ == terminated(c),
    decreases c.len(),
{
    if c.len() == 1 {
        assert(c.drop_first() =~= Seq::<Seq<char>>::empty());
        assert(terminated(c.drop_first()) == Seq::<char>::empty());
        assert(terminated(c) =~= c[0] + "\n"@);
    } else {
        lemma_join_terminated(c.drop_last());
        lemma_terminated_push(c.drop_last(), c.last());
        assert(c.drop_last().push(c.last()) =~= c);
        assert(crate::text::join(c, "\n"@) + "\n"@ =~= (crate::text::join(c.drop_last(), "\n"@)
            + "\n"@) + c.last() + "\n"@);
    }
}

proof fn lemma_lines_terminated(c: Seq<Seq<char>>)
    requires
        single_lines(c),
        forall|i: int| 0 <= i < c.len() ==> (#[trigger] c[i]).len() == 0 || c[i].last() != '\r',
    ensures
        lines(terminated(c)) == c,
    decreases c.len(),
{
    reveal_strlit("\n");
    if c.len() > 0 {
        let d = c.drop_first();
        assert forall|i: int, j: int| 0 <= i < d.len() && 0 <= j < d[i].len() implies #[trigger] d[i][j]
            != '\n' by {
            assert(d[i] == c[i + 1]);
        }
        assert forall|i: int| 0 <= i < d.len() implies (#[trigger] d[i]).len() == 0 || d[i].last()
            != '\r' by {
            assert(d[i] == c[i + 1]);
        }
        lemma_lines_terminated(d);
        let x = c[0];
        let s = terminated(c);
        let k = x.len() as int;
        assert(s == x + "\n"@ + terminated(d));
        assert forall|j: int| 0 <= j < k implies s[j] != '\n' by {
            assert(s[j] == x[j]);
            assert(c[0][j] != '\n');
        }
        crate::text::lemma_index_of_found(s, '\n', k);
        assert(s.subrange(0, k) =~= x);
        assert(s.subrange(k + 1, s.len() as int) =~= terminated(d));
        assert(crate::text::strip_cr(x) == x);
        assert(lines(s) =~= seq![x] + d);
    }
}

proof fn lemma_collapse_single(s: Seq<Seq<char>>)
    requires
        single_lines(s),
    ensures
        single_lines(collapse_blank(s).0),
    decreases s.len(),
{
    if s.len() > 0 {
        let d = s.drop_last();
        assert forall|i: int, j: int| 0 <= i < d.len() && 0 <= j < d[i].len() implies #[trigger] d[i][j]
            != '\n' by {
            assert(d[i] == s[i]);
        }
        lemma_collapse_single(d);
        let (c, prev) = collapse_blank(d);
        let t = trim_end(s.last());
        lemma_trim_end_prefix(s.last(), CharClass::Whitespace);
        let r = collapse_blank(s).0;
        assert forall|i: int, j: int| 0 <= i < r.len() && 0 <= j < r[i].len() implies #[trigger] r[i][j]
            != '\n' by {
            if i < c.len() {
                assert(r[i] == c[i]);
            } else {
                assert(r[i] == t || r[i].len() == 0);
                if r[i] == t {
                    assert(t[j] == s.last()[j]);
                    assert(s[s.len() - 1][j] != '\n');
                }
            }
        }
    }
}

proof fn lemma_drop_trailing_empty_prefix(c: Seq<Seq<char>>)
    ensures
        drop_trailing_empty(c).len() <= c.len(),
        forall|i: int| 0 <= i < drop_trailing_empty(c).len() ==> #[trigger] drop_trailing_empty(c)[i]
            == c[i],
    decreases c.len(),
{
    if c.len() > 0 && c.last().len() == 0 {
        lemma_drop_trailing_empty_prefix(c.drop_last());
    }
}

/// The normalized text, read back into lines, gives the normalized lines
/// (when no input line holds a line break): it is empty or ends with a line
/// feed, and its lines are tidy and keep the input's content.
pub proof fn law_normalized_text_lines(s: Seq<Seq<char>>)
    requires
        single_lines(s),
    ensures
        lines(normalized_text(s)) == normalized_lines(s),
        normalized_text(s).len() == 0 || normalized_text(s).last() == '\n',
        tidy_lines(lines(normalized_text(s))),
        lines(normalized_text(s)).filter(non_empty_lines()) == right_trimmed(s).filter(
            non_empty_lines(),
        ),
{
    let c = normalized_lines(s);
    law_normalized_lines_tidy(s);
    law_normalized_keeps_content(s);
    lemma_collapse_single(s);
    let cb = collapse_blank(s).0;
    lemma_drop_trailing_empty_prefix(cb);
    assert forall|i: int, j: int| 0 <= i < c.len() && 0 <= j < c[i].len() implies #[trigger] c[i][j]
        != '\n' by {
        assert(c[i] == cb[i]);
    }
    assert forall|i: int| 0 <= i < c.len() implies (#[trigger] c[i]).len() == 0 || c[i].last()
        != '\r' by {
        assert(c[i].len() == 0 || !is_whitespace(c[i].last()));
    }
    reveal_strlit("\n");
    if c.len() == 0 {
        assert(normalized_text(s) =~= Seq::<char>::empty());
        assert(lines(Seq::<char>::empty()) =~= Seq::<Seq<char>>::empty());
    } else {
        lemma_join_terminated(c);
        lemma_lines_terminated(c);
    }
}

/// Normalizing the text a second time, after reading it back into lines,
/// changes nothing.
pub proof fn law_normalized_text_idempotent(s: Seq<Seq<char>>)
    requires
        single_lines(s),
    ensures
        normalized_text(lines(normalized_text(s))) == normalized_text(s),
{
    law_normalized_text_lines(s);
    law_normalized_lines_idempotent(s);
}

// ---------------------------------------------------------------------------
// No image, footer or `魅力` line in the output
// ---------------------------------------------------------------------------

/// A line that embeds no image, is no footer line and is not about `魅力`.
pub open spec fn clean_line(l: Seq<char>) -> bool {
    &&& !image_line(l)
    &&& !footer_line(l)
    &&& !crate::line_rules::charm_line(l)
}

pub open spec fn clean_pred() -> spec_fn(Seq<char>) -> bool {
    |l: Seq<char>| clean_line(l)
}

/// A line that embeds no image and is no footer line, as the first pass
/// leaves every line of the rendering.
pub open spec fn first_pass_pred() -> spec_fn(Seq<char>) -> bool {
    |l: Seq<char>| !image_line(l) && !footer_line(l)
}

/// Every character of `s` satisfies `ok`.
pub open spec fn all_chars(s: Seq<char>, ok: spec_fn(char) -> bool) -> bool {
    forall|j: int| 0 <= j < s.len() ==> ok(#[trigger] s[j])
}

proof fn lemma_absent_char(s: Seq<char>, p: Seq<char>, m: int, ok: spec_fn(char) -> bool)
    requires
        0 <= m < p.len(),
        !ok(p[m]),
        all_chars(s, ok),
    ensures
        !crate::text::contains(s, p),
{
    if crate::text::contains(s, p) {
        let i = choose|i: int| crate::text::occurs_at(s, p, i);
        assert(s.subrange(i, i + p.len())[m] == s[i + m]);
        assert(ok(s[i + m]));
    }
}

proof fn lemma_trim_chars(s: Seq<char>, k: CharClass, ok: spec_fn(char) -> bool)
    requires
        all_chars(s, ok),
    ensures
        all_chars(crate::text::trim_start_class(s, k), ok),
        all_chars(crate::text::trim_end_class(s, k), ok),
        all_chars(crate::text::trim_class(s, k), ok),
{
    crate::text::lemma_trim_start_suffix(s, k);
    lemma_trim_end_prefix(s, k);
    let a = crate::text::trim_start_class(s, k);
    assert forall|j: int| 0 <= j < a.len() implies ok(#[trigger] a[j]) by {
        assert(a[j] == s[s.len() - a.len() + j]);
    }
    let b = crate::text::trim_end_class(s, k);
    assert forall|j: int| 0 <= j < b.len() implies ok(#[trigger] b[j]) by {
        assert(b[j] == s[j]);
    }
    lemma_trim_end_prefix(a, k);
    let c = crate::text::trim_class(s, k);
    assert forall|j: int| 0 <= j < c.len() implies ok(#[trigger] c[j]) by {
        assert(c[j] == a[j]);
    }
}

/// The cleaned marker text of a line is made of the line's characters.
proof fn lemma_clean_marker_chars(s: Seq<char>, ok: spec_fn(char) -> bool)
    requires
        all_chars(s, ok),
    ensures
        all_chars(crate::line_rules::clean_marker(s), ok),
{
    let t1 = crate::text::trim(s);
    lemma_trim_chars(s, CharClass::Whitespace, ok);
    let t2 = crate::text::trim_start_class(t1, CharClass::ListMarker);
    lemma_trim_chars(t1, CharClass::ListMarker, ok);
    let t3 = crate::text::trim(t2);
    lemma_trim_chars(t2, CharClass::Whitespace, ok);
    let t4 = crate::text::trim_class(t3, CharClass::Star);
    lemma_trim_chars(t3, CharClass::Star, ok);
    let t5 = crate::text::trim_class(t4, CharClass::FullWidthStar);
    lemma_trim_chars(t4, CharClass::FullWidthStar, ok);
    lemma_trim_chars(t5, CharClass::Whitespace, ok);
}

/// A line about `魅力` holds the character `魅`.
proof fn lemma_charm_needs_char(s: Seq<char>, ok: spec_fn(char) -> bool)
    requires
        all_chars(s, ok),
        !ok('魅'),
    ensures
        !crate::line_rules::charm_line(s),
{
    lemma_clean_marker_chars(s, ok);
    let c = crate::line_rules::clean_marker(s);
    reveal_strlit("魅力");
    reveal_strlit("魅力:");
    reveal_strlit("魅力：");
    if c == "魅力"@ {
        assert(ok(c[0]));
    }
    if crate::text::starts_with(c, "魅力:"@) {
        assert(c.subrange(0, 3)[0] == c[0]);
        assert(ok(c[0]));
    }
    if crate::text::starts_with(c, "魅力："@) {
        assert(c.subrange(0, 3)[0] == c[0]);
        assert(ok(c[0]));
    }
}

proof fn lemma_empty_clean()
    ensures
        clean_line(seq![]),
{
    let z = Seq::<char>::empty();
    lemma_subheading_chars_no_image_or_footer(z);
    lemma_charm_needs_char(z, |c: char| false);
}

/// The characters a status line is made of.
pub open spec fn status_char(c: char) -> bool {
    ||| c == '-' || c == ' ' || c == ':'
    ||| c == 'E' || c == 'X' || c == 'S' || c == 'A' || c == 'B' || c == 'C' || c == 'D'
    ||| c as u32 > 0x3000 && c != 'お' && c != '魅'
}

/// The characters of a status line in lower case.
pub open spec fn lower_status_char(c: char) -> bool {
    ||| c == '-' || c == ' ' || c == ':'
    ||| c == 'e' || c == 'x' || c == 's' || c == 'a' || c == 'b' || c == 'c' || c == 'd'
    ||| c as u32 > 0x3000 && c != 'お' && c != '魅'
}

proof fn lemma_status_line_chars(l: Seq<char>)
    requires
        status_line_of(l, status_names()),
    ensures
        all_chars(l, |c: char| status_char(c)),
        all_chars(crate::text::lower(l), |c: char| lower_status_char(c)),
{
    let (k, r) = choose|k: int, r: Seq<char>|
        0 <= k < status_names().len() && status_ranks().contains(r) && l == "- "@
            + status_names()[k] + ": "@ + r;
    let name = status_names()[k];
    reveal_strlit("- ");
    reveal_strlit(": ");
    reveal_strlit("筋力");
    reveal_strlit("耐久力");
    reveal_strlit("知力");
    reveal_strlit("精神力");
    reveal_strlit("素早さ");
    reveal_strlit("運");
    reveal_strlit("EX");
    reveal_strlit("S");
    reveal_strlit("A");
    reveal_strlit("B");
    reveal_strlit("C");
    reveal_strlit("D");
    reveal_strlit("E");
    assert(k == 0 || k == 1 || k == 2 || k == 3 || k == 4 || k == 5);
    assert(forall|m: int| 0 <= m < name.len() ==> status_char(#[trigger] name[m]));
    let i = choose|i: int| 0 <= i < status_ranks().len() && status_ranks()[i] == r;
    assert(i == 0 || i == 1 || i == 2 || i == 3 || i == 4 || i == 5 || i == 6);
    assert(forall|m: int| 0 <= m < r.len() ==> status_char(#[trigger] r[m]));
    let a = "- "@ + name;
    let b = a + ": "@;
    assert forall|j: int| 0 <= j < l.len() implies status_char(#[trigger] l[j]) by {
        if j < 2 {
            assert(l[j] == "- "@[j]);
        } else if j < a.len() {
            assert(l[j] == name[j - 2]);
        } else if j < b.len() {
            assert(l[j] == ": "@[j - a.len()]);
        } else {
            assert(l[j] == r[j - b.len()]);
        }
    }
    let lo = crate::text::lower(l);
    assert forall|j: int| 0 <= j < lo.len() implies lower_status_char(#[trigger] lo[j]) by {
        assert(lo[j] == crate::text::ascii_lower(l[j]));
        assert(status_char(l[j]));
    }
}

proof fn lemma_status_line_clean(l: Seq<char>)
    requires
        status_line_of(l, status_names()),
    ensures
        clean_line(l),
{
    lemma_status_line_chars(l);
    let ok = |c: char| status_char(c);
    let lo = |c: char| lower_status_char(c);
    let low = crate::text::lower(l);
    reveal_strlit("![");
    reveal_strlit("<img");
    reveal_strlit("data:image");
    reveal_strlit(";base64");
    reveal_strlit("Steamストア");
    reveal_strlit("お問い合わせ");
    reveal_strlit("X(Twitter)");
    reveal_strlit("Discord");
    reveal_strlit("©Dagdoria Studio");
    reveal_strlit("©Mare Inc.");
    reveal_strlit("dagdoria studio");
    reveal_strlit("mare inc");
    reveal_strlit("twitter.com");
    reveal_strlit("discord");
    reveal_strlit("store.steampowered.com");
    lemma_absent_char(low, "!["@, 0, lo);
    lemma_absent_char(low, "<img"@, 0, lo);
    lemma_absent_char(low, "data:image"@, 2, lo);
    lemma_absent_char(low, ";base64"@, 0, lo);
    lemma_absent_char(l, "Steamストア"@, 1, ok);
    lemma_absent_char(l, "お問い合わせ"@, 0, ok);
    lemma_absent_char(l, "X(Twitter)"@, 1, ok);
    lemma_absent_char(l, "Discord"@, 1, ok);
    lemma_absent_char(l, "©Dagdoria Studio"@, 0, ok);
    lemma_absent_char(l, "©Mare Inc."@, 0, ok);
    lemma_absent_char(low, "dagdoria studio"@, 2, lo);
    lemma_absent_char(low, "mare inc"@, 0, lo);
    lemma_absent_char(low, "twitter.com"@, 0, lo);
    lemma_absent_char(low, "discord"@, 1, lo);
    lemma_absent_char(low, "store.steampowered.com"@, 1, lo);
    lemma_charm_needs_char(l, ok);
}

proof fn lemma_trim_of_trim_end(x: Seq<char>)
    ensures
        crate::text::trim(trim_end(x)) == crate::text::trim(x),
{
    let ws = CharClass::Whitespace;
    let n = x.len() as int;
    let r = trim_end(x);
    lemma_trim_end_prefix(x, ws);
    let ts = crate::text::trim_start_class(x, ws);
    crate::text::lemma_trim_start_suffix(x, ws);
    let a = n - ts.len();
    let e = r.len() as int;
    lemma_trim_end_prefix(ts, ws);
    let t = crate::text::trim(x);
    let rs = crate::text::trim_start_class(r, ws);
    crate::text::lemma_trim_start_suffix(r, ws);
    if e == 0 {
        if ts.len() > 0 {
            assert(ts[0] == x[a]);
            assert(crate::text::in_class(x[a], ws));
        }
        assert(ts =~= Seq::<char>::empty());
        assert(r =~= Seq::<char>::empty());
        assert(rs =~= Seq::<char>::empty());
        assert(crate::text::trim_end_class(Seq::<char>::empty(), ws) == Seq::<char>::empty());
    } else {
        assert(r[e - 1] == x[e - 1]);
        assert(!crate::text::in_class(x[e - 1], ws));
        assert(a <= e - 1);
        let a2 = e - rs.len();
        if a2 < a {
            assert(rs[0] == r[a2]);
            assert(r[a2] == x[a2]);
        }
        if a2 > a {
            assert(r[a] == x[a]);
            assert(ts[0] == x[a]);
        }
        assert(a2 == a);
        assert(rs =~= x.subrange(a, e));
        assert(rs.last() == x[e - 1]);
        assert(crate::text::trim_end_class(rs, ws) == rs);
        let l = t.len() as int;
        assert(ts[e - 1 - a] == x[e - 1]);
        if l < e - a {
            assert(crate::text::in_class(ts[e - 1 - a], ws));
        }
        if l > e - a {
            assert(ts[l - 1] == x[a + l - 1]);
            assert(crate::text::in_class(x[a + l - 1], ws));
        }
        assert(t =~= x.subrange(a, e));
    }
}

proof fn lemma_contains_prefix(s: Seq<char>, e: int, p: Seq<char>)
    requires
        0 <= e <= s.len(),
        crate::text::contains(s.subrange(0, e), p),
    ensures
        crate::text::contains(s, p),
{
    let i = choose|i: int| crate::text::occurs_at(s.subrange(0, e), p, i);
    assert(s.subrange(i, i + p.len()) =~= s.subrange(0, e).subrange(i, i + p.len()));
    assert(crate::text::occurs_at(s, p, i));
}

proof fn lemma_image_footer_prefix(s: Seq<char>, e: int)
    requires
        0 <= e <= s.len(),
        !image_line(s),
        !footer_line(s),
    ensures
        !image_line(s.subrange(0, e)),
        !footer_line(s.subrange(0, e)),
{
    let q = s.subrange(0, e);
    let lq = crate::text::lower(q);
    let ls = crate::text::lower(s);
    assert(lq =~= ls.subrange(0, e));
    assert forall|p: Seq<char>| crate::text::contains(q, p) implies crate::text::contains(s, p) by {
        lemma_contains_prefix(s, e, p);
    }
    assert forall|p: Seq<char>| crate::text::contains(lq, p) implies crate::text::contains(ls, p) by {
        lemma_contains_prefix(ls, e, p);
    }
}

/// Trimming a clean line on the right keeps it clean.
proof fn lemma_trim_end_clean(x: Seq<char>)
    requires
        clean_line(x),
    ensures
        clean_line(trim_end(x)),
{
    lemma_trim_end_prefix(x, CharClass::Whitespace);
    lemma_image_footer_prefix(x, trim_end(x).len() as int);
    lemma_trim_of_trim_end(x);
    assert(crate::line_rules::clean_marker(trim_end(x)) == crate::line_rules::clean_marker(x));
}

proof fn lemma_collapse_clean(s: Seq<Seq<char>>)
    requires
        all_lines(s, clean_pred()),
    ensures
        all_lines(collapse_blank(s).0, clean_pred()),
    decreases s.len(),
{
    if s.len() > 0 {
        let d = s.drop_last();
        assert forall|i: int| 0 <= i < d.len() implies clean_pred()(#[trigger] d[i]) by {
            assert(d[i] == s[i]);
        }
        lemma_collapse_clean(d);
        let (c, prev) = collapse_blank(d);
        assert(clean_pred()(s[s.len() - 1]));
        lemma_trim_end_clean(s.last());
        lemma_empty_clean();
        let t = trim_end(s.last());
        let r = collapse_blank(s).0;
        assert forall|i: int| 0 <= i < r.len() implies clean_pred()(#[trigger] r[i]) by {
            if i < c.len() {
                assert(r[i] == c[i]);
            } else if t.len() == 0 {
                assert(r[i] == Seq::<char>::empty());
            } else {
                assert(r[i] == t);
            }
        }
    }
}

proof fn lemma_normalized_clean(s: Seq<Seq<char>>)
    requires
        all_lines(s, clean_pred()),
    ensures
        all_lines(normalized_lines(s), clean_pred()),
{
    lemma_collapse_clean(s);
    let c = collapse_blank(s).0;
    lemma_drop_trailing_empty_prefix(c);
    let n = normalized_lines(s);
    assert forall|i: int| 0 <= i < n.len() implies clean_pred()(#[trigger] n[i]) by {
        assert(n[i] == c[i]);
    }
}

/// Splitting keeps each line where it was read: preamble lines, headings
/// and section bodies all come from the input.
proof fn lemma_split_fold_all(ls: Seq<Seq<char>>, p: spec_fn(Seq<char>) -> bool)
    requires
        all_lines(ls, p),
    ensures
        ({
            let (pre, secs, cur) = crate::markdown::split_fold(ls);
            &&& all_lines(pre, p)
            &&& forall|k: int|
                0 <= k < secs.len() ==> p((#[trigger] secs[k]).heading) && all_lines(
                    secs[k].body,
                    p,
                ) && crate::line_rules::h2_heading(secs[k].heading)
            &&& cur matches Some(x) ==> p(x.heading) && all_lines(x.body, p)
                && crate::line_rules::h2_heading(x.heading)
        }),
    decreases ls.len(),
{
    if ls.len() > 0 {
        let d = ls.drop_last();
        assert forall|i: int| 0 <= i < d.len() implies p(#[trigger] d[i]) by {
            assert(d[i] == ls[i]);
        }
        lemma_split_fold_all(d, p);
        let (pre, secs, cur) = crate::markdown::split_fold(d);
        let l = ls.last();
        assert(p(ls[ls.len() - 1]));
        if crate::line_rules::h2_heading(l) {
            if let Some(x) = cur {
                let s2 = secs.push(x);
                assert forall|k: int| 0 <= k < s2.len() implies p((#[trigger] s2[k]).heading)
                    && all_lines(s2[k].body, p) && crate::line_rules::h2_heading(s2[k].heading) by {
                    if k < secs.len() {
                        assert(s2[k] == secs[k]);
                    }
                }
            }
        } else {
            match cur {
                Some(x) => {
                    lemma_all_concat(x.body, seq![l], p);
                    assert(x.body.push(l) == x.body + seq![l]);
                },
                None => {
                    lemma_all_concat(pre, seq![l], p);
                    assert(pre.push(l) == pre + seq![l]);
                },
            }
        }
    }
}

proof fn lemma_split_all(ls: Seq<Seq<char>>, p: spec_fn(Seq<char>) -> bool)
    requires
        all_lines(ls, p),
    ensures
        all_lines(crate::markdown::split_spec(ls).0, p),
        forall|k: int|
            0 <= k < crate::markdown::split_spec(ls).1.len() ==> p(
                (#[trigger] crate::markdown::split_spec(ls).1[k]).heading,
            ) && all_lines(crate::markdown::split_spec(ls).1[k].body, p)
                && crate::line_rules::h2_heading(crate::markdown::split_spec(ls).1[k].heading),
{
    lemma_split_fold_all(ls, p);
    let (pre, secs, cur) = crate::markdown::split_fold(ls);
    if let Some(x) = cur {
        let s2 = secs.push(x);
        assert forall|k: int| 0 <= k < s2.len() implies p((#[trigger] s2[k]).heading) && all_lines(
            s2[k].body,
            p,
        ) && crate::line_rules::h2_heading(s2[k].heading) by {
            if k < secs.len() {
                assert(s2[k] == secs[k]);
            }
        }
    }
}

/// A line without noise is not about `魅力`.
proof fn lemma_quiet_not_charm(l: Seq<char>)
    requires
        !crate::line_rules::noise_line(l),
    ensures
        !crate::line_rules::charm_line(l),
{
    lemma_trim_idempotent(l);
    assert(crate::line_rules::clean_marker(crate::text::trim(l)) == crate::line_rules::clean_marker(
        l,
    ));
    if crate::text::trim(l).len() == 0 {
        lemma_empty_not_charm();
        assert(crate::text::trim(l) =~= Seq::<char>::empty());
    }
}

/// A `##` heading read from the first pass is clean.
proof fn lemma_heading_clean(h: Seq<char>)
    requires
        first_pass_pred()(h),
        crate::line_rules::h2_heading(h),
    ensures
        clean_line(h),
{
    reveal_strlit("## ");
    assert(h.subrange(0, 3)[0] == h[0]);
    lemma_hash_line_not_charm(h);
}

proof fn lemma_detail_fold_clean(ls: Seq<Seq<char>>)
    requires
        all_lines(ls, first_pass_pred()),
    ensures
        all_lines(crate::sheet::detail_fold(ls).0, clean_pred()),
    decreases ls.len(),
{
    if ls.len() > 0 {
        let d = ls.drop_last();
        assert forall|i: int| 0 <= i < d.len() implies first_pass_pred()(#[trigger] d[i]) by {
            assert(d[i] == ls[i]);
        }
        lemma_detail_fold_clean(d);
        let (body, skipping) = crate::sheet::detail_fold(d);
        let line = ls.last();
        assert(first_pass_pred()(ls[ls.len() - 1]));
        let t = crate::text::trim(line);
        let out = crate::sheet::detail_fold(ls).0;
        if crate::line_rules::detail_charm_heading(t) {
        } else if crate::line_rules::detail_valid_heading(t) {
            let title = title_of(t);
            reveal_strlit("### ");
            let pushed = if crate::text::starts_with(t, "### "@) {
                assert(t[0] == "### "@[0]);
                lemma_heading_not_noise(line);
                lemma_quiet_not_charm(line);
                line
            } else {
                let h = "### "@ + title;
                lemma_title_of_rebuilt(title);
                lemma_title_chars(title);
                assert(h[0] == '#');
                lemma_heading_not_noise(h);
                lemma_quiet_not_charm(h);
                lemma_title_chars(title);
                assert forall|j: int| 0 <= j < h.len() implies subheading_char(#[trigger] h[j]) by {
                    if j >= 4 {
                        assert(h[j] == title[j - 4]);
                    } else {
                        assert(h[j] == "### "@[j]);
                    }
                }
                lemma_subheading_chars_no_image_or_footer(h);
                h
            };
            assert(clean_line(pushed));
            assert(out == body.push(pushed));
            assert forall|i: int| 0 <= i < out.len() implies clean_pred()(#[trigger] out[i]) by {
                if i < body.len() {
                    assert(out[i] == body[i]);
                }
            }
        } else if skipping || crate::line_rules::noise_line(t) {
        } else {
            lemma_trim_idempotent(line);
            assert(!crate::line_rules::noise_line(line));
            lemma_quiet_not_charm(line);
            assert(out == body.push(line));
            assert forall|i: int| 0 <= i < out.len() implies clean_pred()(#[trigger] out[i]) by {
                if i < body.len() {
                    assert(out[i] == body[i]);
                }
            }
        }
    }
}

proof fn lemma_skill_blocks_clean(skills: Seq<SkillView>)
    requires
        forall|k: int|
            0 <= k < skills.len() ==> all_lines(
                crate::skills::skill_block(#[trigger] skills[k]),
                clean_pred(),
            ),
    ensures
        all_lines(crate::skills::skill_blocks(skills), clean_pred()),
    decreases skills.len(),
{
    if skills.len() > 0 {
        let d = skills.drop_last();
        assert forall|k: int| 0 <= k < d.len() implies all_lines(
            crate::skills::skill_block(#[trigger] d[k]),
            clean_pred(),
        ) by {
            assert(d[k] == skills[k]);
        }
        lemma_skill_blocks_clean(d);
        assert(all_lines(crate::skills::skill_block(skills[skills.len() - 1]), clean_pred()));
        lemma_all_concat(
            crate::skills::skill_blocks(d),
            crate::skills::skill_block(skills.last()),
            clean_pred(),
        );
    }
}

proof fn lemma_filter_all(ls: Seq<Seq<char>>, f: spec_fn(Seq<char>) -> bool, q: spec_fn(Seq<char>) -> bool)
    requires
        all_lines(ls, q),
    ensures
        all_lines(ls.filter(f), q),
        all_lines(ls.filter(f), f),
{
    let r = ls.filter(f);
    assert forall|i: int| 0 <= i < r.len() implies q(#[trigger] r[i]) && f(r[i]) by {
        assert(r.contains(r[i]));
        ls.lemma_filter_contains_rev(f, r[i]);
        let j = choose|j: int| 0 <= j < ls.len() && ls[j] == r[i];
        assert(q(ls[j]));
        ls.lemma_filter_pred(f, i);
    }
}

proof fn lemma_quiet_lines_clean(ls: Seq<Seq<char>>)
    requires
        all_lines(ls, first_pass_pred()),
        forall|i: int| 0 <= i < ls.len() ==> !crate::line_rules::noise_line(#[trigger] ls[i]),
    ensures
        all_lines(ls, clean_pred()),
{
    assert forall|i: int| 0 <= i < ls.len() implies clean_pred()(#[trigger] ls[i]) by {
        assert(first_pass_pred()(ls[i]));
        lemma_quiet_not_charm(ls[i]);
    }
}

proof fn lemma_section_clean(s: SectionView, skills: Seq<SkillView>)
    requires
        first_pass_pred()(s.heading),
        all_lines(s.body, first_pass_pred()),
        crate::line_rules::h2_heading(s.heading),
        forall|k: int|
            0 <= k < skills.len() ==> all_lines(
                crate::skills::skill_block(#[trigger] skills[k]),
                clean_pred(),
            ),
    ensures
        section_output(s, skills) matches Some(v) ==> all_lines(v, clean_pred()),
{
    lemma_heading_clean(s.heading);
    lemma_empty_clean();
    let hd = seq![s.heading, Seq::<char>::empty()];
    assert forall|i: int| 0 <= i < hd.len() implies clean_pred()(#[trigger] hd[i]) by {
        if i == 0 {
            assert(hd[i] == s.heading);
        } else {
            assert(hd[i] == Seq::<char>::empty());
        }
    }
    let title = title_of(s.heading);
    if let Some(v) = section_output(s, skills) {
        if title == "アイコン画像"@ || title == "魅力"@ {
        } else if title == "ステータス"@ {
            let b = status_lines(s.body, status_names());
            law_status_lines_form(s.body, status_names());
            assert forall|i: int| 0 <= i < b.len() implies clean_pred()(#[trigger] b[i]) by {
                assert(status_line_of(b[i], status_names()));
                lemma_status_line_clean(b[i]);
            }
            lemma_all_concat(hd, b, clean_pred());
            assert(v == hd + b);
        } else if title == "キャラクター詳細"@ {
            lemma_detail_fold_clean(s.body);
            lemma_detail_body_all(s, clean_pred());
            let body = crate::sheet::without_empty_h3(crate::sheet::detail_fold(s.body).0);
            assert(v == hd + trim_blank_lines(body));
            assert forall|i: int| 0 <= i < v.len() implies clean_pred()(#[trigger] v[i]) by {
                if i < 2 {
                    assert(v[i] == hd[i]);
                }
            }
        } else if title == "スキル"@ && skills.len() > 0 {
            lemma_skill_blocks_clean(skills);
            lemma_all_concat(hd, crate::skills::skill_blocks(skills), clean_pred());
            lemma_all_trim_blank(hd + crate::skills::skill_blocks(skills), clean_pred());
        } else {
            let f = if crate::sheet::item_section_title(title) {
                |l: Seq<char>|
                    !crate::line_rules::empty_item(l) && !crate::line_rules::noise_line(l)
            } else {
                |l: Seq<char>| !crate::line_rules::noise_line(l)
            };
            let body = s.body.filter(f);
            lemma_filter_all(s.body, f, first_pass_pred());
            assert forall|i: int| 0 <= i < body.len() implies !crate::line_rules::noise_line(
                #[trigger] body[i],
            ) by {
                assert(f(body[i]));
            }
            lemma_quiet_lines_clean(body);
            lemma_all_trim_blank(body, clean_pred());
            lemma_all_concat(hd, trim_blank_lines(body), clean_pred());
            assert(v == hd + trim_blank_lines(body));
        }
    }
}

proof fn lemma_sections_output_clean(
    out: Seq<Seq<char>>,
    secs: Seq<SectionView>,
    skills: Seq<SkillView>,
)
    requires
        all_lines(out, clean_pred()),
        forall|k: int|
            0 <= k < secs.len() ==> first_pass_pred()((#[trigger] secs[k]).heading) && all_lines(
                secs[k].body,
                first_pass_pred(),
            ) && crate::line_rules::h2_heading(secs[k].heading),
        forall|k: int|
            0 <= k < skills.len() ==> all_lines(
                crate::skills::skill_block(#[trigger] skills[k]),
                clean_pred(),
            ),
    ensures
        all_lines(crate::sheet::sections_output(out, secs, skills), clean_pred()),
    decreases secs.len(),
{
    if secs.len() > 0 {
        let d = secs.drop_last();
        assert forall|k: int| 0 <= k < d.len() implies first_pass_pred()((#[trigger] d[k]).heading)
            && all_lines(d[k].body, first_pass_pred()) && crate::line_rules::h2_heading(
            d[k].heading,
        ) by {
            assert(d[k] == secs[k]);
        }
        lemma_sections_output_clean(out, d, skills);
        let pre = crate::sheet::sections_output(out, d, skills);
        let last = secs[secs.len() - 1];
        lemma_section_clean(last, skills);
        if let Some(l) = section_output(last, skills) {
            lemma_empty_clean();
            lemma_all_concat(pre, seq![Seq::<char>::empty()], clean_pred());
            assert(pre.push(seq![]) == pre + seq![Seq::<char>::empty()]);
            let sep = if pre.len() > 0 && pre.last().len() != 0 {
                pre.push(seq![])
            } else {
                pre
            };
            lemma_all_concat(sep, l, clean_pred());
        }
    }
}

/// When the skills render to lines that are clean, no line of the written
/// Markdown embeds an image, is a footer line or is about `魅力`: the first
/// pass drops images and footers, noise (`魅力` items among it) goes, the
/// `魅力` part of the character detail goes, and the status and
/// sub-heading lines that the clean-up writes are clean.
pub proof fn law_cleaned_output_clean(markdown: Seq<char>, skills: Seq<SkillView>)
    requires
        forall|k: int|
            0 <= k < skills.len() ==> all_lines(
                crate::skills::skill_block(#[trigger] skills[k]),
                clean_pred(),
            ),
    ensures
        all_lines(normalized_lines(crate::sheet::cleaned_lines(markdown, skills)), clean_pred()),
        crate::sheet::cleaned_markdown(markdown, skills) == normalized_text(
            crate::sheet::cleaned_lines(markdown, skills),
        ),
{
    let ls = crate::markdown::initial_lines(markdown);
    law_initial_lines_drop_images_and_footers(markdown);
    assert forall|i: int| 0 <= i < ls.len() implies first_pass_pred()(#[trigger] ls[i]) by {}
    lemma_split_all(ls, first_pass_pred());
    let (pre, secs) = crate::markdown::split_spec(ls);
    let nq = |l: Seq<char>| !crate::line_rules::noise_line(l);
    let p2 = pre.filter(nq);
    lemma_filter_all(pre, nq, first_pass_pred());
    assert forall|i: int| 0 <= i < p2.len() implies !crate::line_rules::noise_line(#[trigger] p2[i]) by {
        assert(nq(p2[i]));
    }
    lemma_quiet_lines_clean(p2);
    lemma_sections_output_clean(p2, secs, skills);
    lemma_normalized_clean(crate::sheet::cleaned_lines(markdown, skills));
}

// ---------------------------------------------------------------------------
// The vocabulary the rules recognise
// ---------------------------------------------------------------------------

/// A line whose cleaned text begins with a status name opens that status's
/// entry, whatever follows the name: `筋力：A`, `筋力 A` and `筋力: A` alike.
pub proof fn law_status_name_opens_entry(l: Seq<char>, name: Seq<char>)
    requires
        crate::text::starts_with(crate::line_rules::clean_marker(l), name),
    ensures
        crate::line_rules::contains_stat_name(l, name),
{
}

/// The sub-headings of the character detail section: a line titled
/// `基本設定`, `外見`, `性格`, `口調`, `経歴`, `特技と役割` or `その他の特徴`
/// becomes a `###` heading with that title (one already written as `### `
/// stays as written) and ends a skipped `魅力` part.
pub proof fn law_known_subheading_step(st: (Seq<Seq<char>>, bool), line: Seq<char>)
    requires
        seq![
            "基本設定"@,
            "外見"@,
            "性格"@,
            "口調"@,
            "経歴"@,
            "特技と役割"@,
            "その他の特徴"@,
        ].contains(title_of(crate::text::trim(line))),
    ensures
        ({
            let (body, skipping) = crate::sheet::detail_step(st, line);
            let pushed = body.last();
            &&& !skipping
            &&& body == st.0.push(pushed)
            &&& crate::text::starts_with(
                crate::text::trim_start_class(pushed, CharClass::Whitespace),
                "### "@,
            )
            &&& title_of(crate::text::trim(pushed)) == title_of(crate::text::trim(line))
            &&& crate::text::starts_with(crate::text::trim(line), "### "@) ==> pushed == line
            &&& !crate::text::starts_with(crate::text::trim(line), "### "@) ==> pushed == "### "@
                + title_of(crate::text::trim(line))
        }),
{
    let t = crate::text::trim(line);
    let title = title_of(t);
    let subs = seq![
        "基本設定"@,
        "外見"@,
        "性格"@,
        "口調"@,
        "経歴"@,
        "特技と役割"@,
        "その他の特徴"@,
    ];
    let k = choose|k: int| 0 <= k < subs.len() && subs[k] == title;
    assert(crate::line_rules::detail_subheadings()[k] == title);
    assert(crate::line_rules::detail_subheadings().contains(title));
    lemma_title_chars(title);
    assert(!crate::line_rules::detail_charm_heading(t));
    reveal_strlit("### ");
    if crate::text::starts_with(t, "### "@) {
        let ts = crate::text::trim_start_class(line, CharClass::Whitespace);
        lemma_trim_end_prefix(ts, CharClass::Whitespace);
        assert(ts.subrange(0, 4) =~= t.subrange(0, 4));
    } else {
        let h = "### "@ + title;
        lemma_title_of_rebuilt(title);
        assert(h[0] == '#');
        lemma_class_start_kept(h, CharClass::Whitespace);
        assert(h.subrange(0, 4) =~= "### "@);
    }
}

proof fn lemma_first_string_field(pairs: Seq<(String, JsonValue)>, keys: Seq<Seq<char>>, k: int)
    requires
        0 <= k < keys.len(),
        object_get(pairs, keys[k]) matches Some(JsonValue::Str(s)) && crate::text::trim(s@).len()
            > 0,
        forall|j: int|
            0 <= j < k ==> !(object_get(pairs, #[trigger] keys[j]) matches Some(JsonValue::Str(x))
                && crate::text::trim(x@).len() > 0),
    ensures
        string_field_of(pairs, keys) == Some(
            crate::text::trim(object_get(pairs, keys[k])->Some_0->Str_0@),
        ),
    decreases k,
{
    if k > 0 {
        let d = keys.drop_first();
        assert forall|j: int| 0 <= j < k - 1 implies !(object_get(pairs, #[trigger] d[j]) matches Some(
            JsonValue::Str(x),
        ) && crate::text::trim(x@).len() > 0) by {
            assert(d[j] == keys[j + 1]);
        }
        assert(d[k - 1] == keys[k]);
        lemma_first_string_field(pairs, d, k - 1);
        assert(!(object_get(pairs, keys[0]) matches Some(JsonValue::Str(x)) && crate::text::trim(
            x@,
        ).len() > 0));
    }
}

/// The members that may name a skill, in the order they are tried.
pub open spec fn skill_name_members() -> Seq<Seq<char>> {
    seq!["name"@, "skillName"@, "title"@, "label"@]
}

/// The members that may describe a skill, in the order they are tried.
pub open spec fn skill_description_members() -> Seq<Seq<char>> {
    seq!["description"@, "skillDescription"@, "detail"@, "text"@]
}

/// A skill's name is read from the first of the members `name`,
/// `skillName`, `title`, `label` that holds a non-blank string, trimmed.
pub proof fn law_skill_name_keys(pairs: Seq<(String, JsonValue)>, k: int)
    requires
        0 <= k < 4,
        object_get(pairs, skill_name_members()[k]) matches Some(
            JsonValue::Str(s),
        ) && crate::text::trim(s@).len() > 0,
        forall|j: int|
            0 <= j < k ==> !(object_get(
                pairs,
                #[trigger] skill_name_members()[j],
            ) matches Some(JsonValue::Str(x)) && crate::text::trim(x@).len() > 0),
    ensures
        string_field_of(pairs, crate::json::name_keys()) == Some(
            crate::text::trim(
                object_get(pairs, skill_name_members()[k])->Some_0->Str_0@,
            ),
        ),
{
    let keys = skill_name_members();
    assert(crate::json::name_keys() =~= keys);
    lemma_first_string_field(pairs, keys, k);
}

/// A skill's description is read from the first of the members
/// `description`, `skillDescription`, `detail`, `text` that holds a
/// non-blank string, trimmed.
pub proof fn law_skill_description_keys(pairs: Seq<(String, JsonValue)>, k: int)
    requires
        0 <= k < 4,
        object_get(pairs, skill_description_members()[k]) matches Some(JsonValue::Str(s)) && crate::text::trim(s@).len() > 0,
        forall|j: int|
            0 <= j < k ==> !(object_get(
                pairs,
                #[trigger] skill_description_members()[j],
            ) matches Some(JsonValue::Str(x)) && crate::text::trim(x@).len() > 0),
    ensures
        string_field_of(pairs, crate::json::description_keys()) == Some(
            crate::text::trim(
                object_get(
                    pairs,
                    skill_description_members()[k],
                )->Some_0->Str_0@,
            ),
        ),
{
    let keys = skill_description_members();
    assert(crate::json::description_keys() =~= keys);
    lemma_first_string_field(pairs, keys, k);
}

/// An item of a `skills` array with a name under one of its name keys
/// gives a skill of that name, unless the name is `空白` or `魅力`.
pub proof fn law_json_item_named(v: JsonValue, name: Seq<char>)
    requires
        v matches JsonValue::Object(pairs) && string_field_of(pairs@, crate::json::name_keys())
            == Some(name),
        crate::skills::normalized(name).len() > 0,
        crate::skills::normalized(name) != "空白"@,
        crate::skills::normalized(name) != "魅力"@,
    ensures
        skill_of_json(v) matches Some(sk) && sk.name == crate::skills::normalized(name),
{
}

/// A line that holds a store, contact, social or copyright text of the
/// site's footer is a footer line.
pub proof fn law_footer_texts(l: Seq<char>)
    ensures
        crate::text::contains(l, "Steamストア"@) ==> footer_line(l),
        crate::text::contains(l, "お問い合わせ"@) ==> footer_line(l),
        crate::text::contains(l, "X(Twitter)"@) ==> footer_line(l),
        crate::text::contains(l, "Discord"@) ==> footer_line(l),
        crate::text::contains(l, "©Dagdoria Studio"@) ==> footer_line(l),
        crate::text::contains(l, "©Mare Inc."@) ==> footer_line(l),
        crate::text::contains(crate::text::lower(l), "dagdoria studio"@) ==> footer_line(l),
        crate::text::contains(crate::text::lower(l), "mare inc"@) ==> footer_line(l),
        crate::text::contains(crate::text::lower(l), "twitter.com"@) ==> footer_line(l),
        crate::text::contains(crate::text::lower(l), "discord"@) ==> footer_line(l),
        crate::text::contains(crate::text::lower(l), "store.steampowered.com"@) ==> footer_line(l),
{
}

/// A line that holds an image link, an `<img` tag or inline image data,
/// in any letter case, embeds an image.
pub proof fn law_image_texts(l: Seq<char>)
    ensures
        crate::text::contains(crate::text::lower(l), "!["@) ==> image_line(l),
        crate::text::contains(crate::text::lower(l), "<img"@) ==> image_line(l),
        crate::text::contains(crate::text::lower(l), "data:image"@) ==> image_line(l),
        crate::text::contains(crate::text::lower(l), ";base64"@) ==> image_line(l),
{
}

/// No line that the first pass keeps holds a footer text or an image.
pub proof fn law_first_pass_drops_footer_texts(markdown: Seq<char>, i: int)
    requires
        0 <= i < crate::markdown::initial_lines(markdown).len(),
    ensures
        ({
            let l = crate::markdown::initial_lines(markdown)[i];
            &&& !crate::text::contains(l, "Steamストア"@)
            &&& !crate::text::contains(l, "お問い合わせ"@)
            &&& !crate::text::contains(l, "X(Twitter)"@)
            &&& !crate::text::contains(l, "Discord"@)
            &&& !crate::text::contains(l, "©Dagdoria Studio"@)
            &&& !crate::text::contains(l, "©Mare Inc."@)
            &&& !crate::text::contains(crate::text::lower(l), "dagdoria studio"@)
            &&& !crate::text::contains(crate::text::lower(l), "mare inc"@)
            &&& !crate::text::contains(crate::text::lower(l), "twitter.com"@)
            &&& !crate::text::contains(crate::text::lower(l), "discord"@)
            &&& !crate::text::contains(crate::text::lower(l), "store.steampowered.com"@)
            &&& !crate::text::contains(crate::text::lower(l), "!["@)
            &&& !crate::text::contains(crate::text::lower(l), "<img"@)
            &&& !crate::text::contains(crate::text::lower(l), "data:image"@)
            &&& !crate::text::contains(crate::text::lower(l), ";base64"@)
        }),
{
    law_initial_lines_drop_images_and_footers(markdown);
    let l = crate::markdown::initial_lines(markdown)[i];
    law_footer_texts(l);
    law_image_texts(l);
}

/// Given skills whose rendered lines are clean, no line of the written
/// Markdown holds a footer text or an image.
pub proof fn law_output_has_no_footer_texts(markdown: Seq<char>, skills: Seq<SkillView>, i: int)
    requires
        forall|k: int|
            0 <= k < skills.len() ==> all_lines(
                crate::skills::skill_block(#[trigger] skills[k]),
                clean_pred(),
            ),
        0 <= i < normalized_lines(crate::sheet::cleaned_lines(markdown, skills)).len(),
    ensures
        ({
            let l = normalized_lines(crate::sheet::cleaned_lines(markdown, skills))[i];
            &&& !crate::text::contains(l, "お問い合わせ"@)
            &&& !crate::text::contains(l, "Steamストア"@)
            &&& !crate::text::contains(l, "X(Twitter)"@)
            &&& !crate::text::contains(l, "Discord"@)
            &&& !crate::text::contains(l, "©Dagdoria Studio"@)
            &&& !crate::text::contains(l, "©Mare Inc."@)
            &&& !crate::text::contains(crate::text::lower(l), "discord"@)
            &&& !crate::text::contains(crate::text::lower(l), "twitter.com"@)
            &&& !crate::text::contains(crate::text::lower(l), "!["@)
            &&& !crate::text::contains(crate::text::lower(l), "<img"@)
        }),
{
    law_cleaned_output_clean(markdown, skills);
    let l = normalized_lines(crate::sheet::cleaned_lines(markdown, skills))[i];
    assert(clean_pred()(l));
    law_footer_texts(l);
    law_image_texts(l);
}

/// An inline style hides its element when, lower-cased and without
/// whitespace, it holds `display:none` or `visibility:hidden` anywhere.
pub proof fn law_hiding_styles(s: Seq<char>)
    ensures
        crate::text::contains(crate::page::compact_style(s), "display:none"@)
            ==> crate::page::style_hides(s),
        crate::text::contains(crate::page::compact_style(s), "visibility:hidden"@)
            ==> crate::page::style_hides(s),
{
}

/// A line titled `魅力` in the character detail section starts a part
/// that is skipped; while a part is skipped, a line that names neither
/// `魅力` nor a known sub-heading is dropped.
pub proof fn law_detail_charm_part(st: (Seq<Seq<char>>, bool), line: Seq<char>)
    ensures
        title_of(crate::text::trim(line)) == "魅力"@ ==> crate::sheet::detail_step(st, line) == (
            st.0,
            true,
        ),
        st.1 && title_of(crate::text::trim(line)) != "魅力"@ && !seq![
            "基本設定"@,
            "外見"@,
            "性格"@,
            "口調"@,
            "経歴"@,
            "特技と役割"@,
            "その他の特徴"@,
        ].contains(title_of(crate::text::trim(line))) ==> crate::sheet::detail_step(st, line) == st,
{
    let title = title_of(crate::text::trim(line));
    let subs = seq![
        "基本設定"@,
        "外見"@,
        "性格"@,
        "口調"@,
        "経歴"@,
        "特技と役割"@,
        "その他の特徴"@,
    ];
    if crate::line_rules::detail_subheadings().contains(title) {
        let k = choose|k: int|
            0 <= k < crate::line_rules::detail_subheadings().len()
                && crate::line_rules::detail_subheadings()[k] == title;
        assert(subs[k] == title);
        lemma_title_chars(title);
    }
}

/// The lines dropped as noise: a line whose trimmed text is an empty item
/// (nothing but a bullet, `-`, `*`, or `空白`), is about `魅力` (`魅力`,
/// `魅力:` or `魅力：` after its bullet), embeds an image or is a footer line.
pub proof fn law_noise_lines(l: Seq<char>)
    ensures
        ({
            let t = crate::text::trim(l);
            let c = crate::line_rules::clean_marker(t);
            &&& t.len() > 0 && (c.len() == 0 || c == "-"@ || c == "*"@ || c == "空白"@)
                ==> crate::line_rules::noise_line(l)
            &&& t.len() > 0 && (c == "魅力"@ || crate::text::starts_with(c, "魅力:"@)
                || crate::text::starts_with(c, "魅力："@)) ==> crate::line_rules::noise_line(l)
            &&& t.len() > 0 && crate::text::contains(t, "お問い合わせ"@)
                ==> crate::line_rules::noise_line(l)
            &&& t.len() > 0 && crate::text::contains(crate::text::lower(t), "!["@)
                ==> crate::line_rules::noise_line(l)
        }),
{
    let t = crate::text::trim(l);
    law_footer_texts(t);
    law_image_texts(t);
}

/// A `##` heading is a line that starts with `## `.
pub proof fn law_h2_headings(l: Seq<char>)
    ensures
        crate::line_rules::h2_heading(l) <==> crate::text::starts_with(l, "## "@),
{
    reveal_strlit("## ");
    reveal_strlit("### ");
    if crate::text::starts_with(l, "## "@) && crate::text::starts_with(l, "### "@) {
        assert(l[2] == "## "@[2]);
        assert(l[2] == "### "@[2]);
    }
}

/// Which skills are kept: none named `空白` or `魅力` or with a blank name;
/// a blank description, `空白` or `無し` is no description; otherwise the
/// name and description are kept, normalized.
pub proof fn law_skill_of(name: Seq<char>, description: Seq<char>)
    ensures
        ({
            let n = crate::skills::normalized(name);
            let d = crate::skills::normalized(description);
            &&& (n.len() == 0 || n == "空白"@ || n == "魅力"@) ==> skill_of(name, description)
                is None
            &&& !(n.len() == 0 || n == "空白"@ || n == "魅力"@) ==> (skill_of(name, description)
                matches Some(sk) && sk.name == n && sk.description == if d.len() == 0 || d
                == "空白"@ || d == "無し"@ {
                None::<Seq<char>>
            } else {
                Some(d)
            })
        }),
{
}

/// In embedded JSON, a `skills` member holding an array contributes the
/// skills of its items, a member named `魅力` contributes nothing, and any
/// other member contributes the skills found inside it.
pub proof fn law_json_members(pairs: Seq<(String, JsonValue)>, key: String, child: JsonValue)
    ensures
        key@ == "skills"@ ==> skills_in_pairs(pairs.push((key, child))) == skills_in_pairs(pairs)
            + match child {
            JsonValue::Array(items) => skill_list(items@),
            _ => Seq::<SkillView>::empty(),
        },
        key@ == "魅力"@ ==> skills_in_pairs(pairs.push((key, child))) == skills_in_pairs(pairs),
        key@ != "skills"@ && key@ != "魅力"@ ==> skills_in_pairs(pairs.push((key, child)))
            == skills_in_pairs(pairs) + skills_in_value(child),
{
    let q = pairs.push((key, child));
    assert(q.drop_last() =~= pairs);
    reveal_strlit("skills");
    reveal_strlit("魅力");
    if key@ == "魅力"@ && key@ == "skills"@ {
        assert("魅力"@[0] == "skills"@[0]);
    }
}

// ---------------------------------------------------------------------------
// Status entries
// ---------------------------------------------------------------------------

/// The statuses that are reported, in order.
pub open spec fn status_name_list() -> Seq<Seq<char>> {
    seq!["筋力"@, "耐久力"@, "知力"@, "精神力"@, "素早さ"@, "運"@]
}

/// The ranks, in the order in which a line's end is matched against them.
pub open spec fn rank_list() -> Seq<Seq<char>> {
    seq!["EX"@, "S"@, "A"@, "B"@, "C"@, "D"@, "E"@]
}

proof fn lemma_rank_in_first(c: Seq<char>, ranks: Seq<Seq<char>>, j: int)
    requires
        0 <= j < ranks.len(),
        c == ranks[j] || crate::text::ends_with(c, ranks[j]),
        forall|i: int|
            0 <= i < j ==> !(c == #[trigger] ranks[i] || crate::text::ends_with(c, ranks[i])),
    ensures
        rank_in(c, ranks) == Some(ranks[j]),
    decreases j,
{
    if j > 0 {
        let d = ranks.drop_first();
        assert forall|i: int| 0 <= i < j - 1 implies !(c == #[trigger] d[i]
            || crate::text::ends_with(c, d[i])) by {
            assert(d[i] == ranks[i + 1]);
        }
        assert(!(c == ranks[0] || crate::text::ends_with(c, ranks[0])));
        lemma_rank_in_first(c, d, j - 1);
    }
}

proof fn lemma_rank_in_none(c: Seq<char>, ranks: Seq<Seq<char>>)
    requires
        forall|i: int|
            0 <= i < ranks.len() ==> !(c == #[trigger] ranks[i] || crate::text::ends_with(
                c,
                ranks[i],
            )),
    ensures
        rank_in(c, ranks) is None,
    decreases ranks.len(),
{
    if ranks.len() > 0 {
        let d = ranks.drop_first();
        assert forall|i: int| 0 <= i < d.len() implies !(c == #[trigger] d[i]
            || crate::text::ends_with(c, d[i])) by {
            assert(d[i] == ranks[i + 1]);
        }
        assert(!(c == ranks[0] || crate::text::ends_with(c, ranks[0])));
        lemma_rank_in_none(c, d);
    }
}

proof fn lemma_first_stat_line_range(ls: Seq<Seq<char>>, name: Seq<char>, from: int)
    requires
        0 <= from,
    ensures
        crate::status::first_stat_line(ls, name, from) == -1 || (from <= crate::status::first_stat_line(
            ls,
            name,
            from,
        ) < ls.len()),
    decreases ls.len() - from,
{
    if from < ls.len() && !crate::line_rules::contains_stat_name(ls[from], name) {
        lemma_first_stat_line_range(ls, name, from + 1);
    }
}

proof fn lemma_entry_end_range(
    ls: Seq<Seq<char>>,
    start: int,
    name: Seq<char>,
    bounds: Seq<Seq<char>>,
)
    requires
        0 <= start < ls.len(),
    ensures
        start + 1 <= crate::status::entry_end(ls, start, name, bounds) <= ls.len(),
        start + 1 >= ls.len() ==> crate::status::entry_end(ls, start, name, bounds) == ls.len(),
    decreases bounds.len(),
{
    if bounds.len() > 0 {
        lemma_entry_end_range(ls, start, name, bounds.drop_last());
        lemma_first_stat_line_range(ls, bounds.last(), start + 1);
    }
}

proof fn lemma_status_lines_has(ls: Seq<Seq<char>>, names: Seq<Seq<char>>, k: int, line: Seq<char>)
    requires
        0 <= k < names.len(),
        crate::status::status_entry(ls, names[k]) == Some(line),
    ensures
        status_lines(ls, names).contains(line),
    decreases names.len(),
{
    let pre = names.drop_last();
    if k == names.len() - 1 {
        let out = status_lines(ls, names);
        assert(out[out.len() - 1] == line);
    } else {
        assert(pre[k] == names[k]);
        lemma_status_lines_has(ls, pre, k, line);
        let p = status_lines(ls, pre);
        let j = choose|j: int| 0 <= j < p.len() && p[j] == line;
        let out = status_lines(ls, names);
        assert(out[j] == line);
    }
}

/// A status section of one line that names a status (its cleaned text
/// begins with the name, whatever follows: `筋力：A`, `筋力 A`, `**筋力**: A`)
/// and ends with a rank gives that status's line `- name: rank`, the rank
/// being the first of `EX`, `S`, `A`, `B`, `C`, `D`, `E` that the line ends
/// with.
pub proof fn law_single_status_line(l: Seq<char>, k: int, j: int)
    requires
        0 <= k < 6,
        0 <= j < 7,
        crate::text::starts_with(crate::line_rules::clean_marker(l), status_name_list()[k]),
        crate::text::ends_with(crate::line_rules::clean_marker(l), rank_list()[j]),
        forall|i: int|
            0 <= i < j ==> crate::line_rules::clean_marker(l) != #[trigger] rank_list()[i]
                && !crate::text::ends_with(crate::line_rules::clean_marker(l), rank_list()[i]),
    ensures
        status_lines(seq![l], status_names()).contains(
            "- "@ + status_name_list()[k] + ": "@ + rank_list()[j],
        ),
        crate::status::status_section(seq![l]) is Some,
{
    let ls = seq![l];
    let name = status_name_list()[k];
    assert(status_names() =~= status_name_list());
    assert(status_ranks() =~= rank_list());
    assert(crate::line_rules::contains_stat_name(ls[0], name));
    assert(crate::status::first_stat_line(ls, name, 0) == 0);
    lemma_entry_end_range(ls, 0, name, crate::status::boundary_names());
    assert(ls.subrange(0, 1) =~= ls);
    lemma_rank_in_first(crate::line_rules::clean_marker(l), rank_list(), j);
    assert(ls.drop_last() =~= Seq::<Seq<char>>::empty());
    assert(rank_of_lines(ls) == Some(rank_list()[j]));
    let line = "- "@ + name + ": "@ + rank_list()[j];
    assert(crate::status::status_entry(ls, name) == Some(line));
    lemma_status_lines_has(ls, status_names(), k, line);
}

/// A status's entry ends where a line about `魅力` begins: a rank on the
/// `魅力` line is not taken for the status.
pub proof fn law_status_entry_stops_at_charm(l1: Seq<char>, l2: Seq<char>, k: int)
    requires
        0 <= k < 6,
        crate::line_rules::clean_marker(l1) == status_name_list()[k],
        crate::text::starts_with(crate::line_rules::clean_marker(l2), "魅力"@),
    ensures
        crate::status::status_entry(seq![l1, l2], status_name_list()[k]) is None,
{
    let ls = seq![l1, l2];
    let name = status_name_list()[k];
    reveal_strlit("魅力");
    reveal_strlit("筋力");
    reveal_strlit("耐久力");
    reveal_strlit("知力");
    reveal_strlit("精神力");
    reveal_strlit("素早さ");
    reveal_strlit("運");
    reveal_strlit("EX");
    reveal_strlit("S");
    reveal_strlit("A");
    reveal_strlit("B");
    reveal_strlit("C");
    reveal_strlit("D");
    reveal_strlit("E");
    assert(k == 0 || k == 1 || k == 2 || k == 3 || k == 4 || k == 5);
    assert(name.len() > 0);
    assert(name.last() as u32 > 0x3000);
    assert(name != "魅力"@) by {
        if name == "魅力"@ {
            assert(name[0] == "魅力"@[0]);
        }
    }
    assert(ls[0] == l1 && ls[1] == l2);
    assert(crate::line_rules::contains_stat_name(ls[0], name));
    assert(crate::status::first_stat_line(ls, name, 0) == 0);
    assert(crate::line_rules::contains_stat_name(ls[1], "魅力"@));
    assert(crate::status::first_stat_line(ls, "魅力"@, 1) == 1);
    let bounds = crate::status::boundary_names();
    assert(bounds.drop_last() =~= status_names());
    assert(bounds.last() == "魅力"@);
    lemma_entry_end_range(ls, 0, name, status_names());
    let e = crate::status::entry_end(ls, 0, name, bounds);
    assert(e == 1);
    let seg = ls.subrange(0, 1);
    assert(seg =~= seq![l1]);
    assert(status_ranks() =~= rank_list());
    assert forall|i: int| 0 <= i < rank_list().len() implies !(name == #[trigger] rank_list()[i]
        || crate::text::ends_with(name, rank_list()[i])) by {
        let r = rank_list()[i];
        assert(i == 0 || i == 1 || i == 2 || i == 3 || i == 4 || i == 5 || i == 6);
        assert(r.len() > 0 && (r.last() as u32) < 128);
        if crate::text::ends_with(name, r) {
            assert(name.subrange(name.len() - r.len(), name.len() as int)[r.len() - 1] == name.last());
        }
        if name == r {
            assert(name.last() == r.last());
        }
    }
    lemma_rank_in_none(name, rank_list());
    assert(seg.drop_last() =~= Seq::<Seq<char>>::empty());
    assert(seg.last() == l1);
    assert(rank_in(crate::line_rules::clean_marker(seg.last()), status_ranks()) is None);
    assert(rank_of_lines(seg.drop_last()) is None);
    assert(rank_of_lines(seg) is None);
    assert(ls.subrange(0, e) == seg);
}

// ---------------------------------------------------------------------------
// What each section becomes
// ---------------------------------------------------------------------------

/// The sections with a rule of their own: `ステータス` keeps its status
/// lines, `キャラクター詳細` is reshaped, and `スキル` is rendered from the
/// page's skills when there are any.
pub proof fn law_section_kinds(s: SectionView, skills: Seq<SkillView>)
    ensures
        title_of(s.heading) == "ステータス"@ ==> section_output(s, skills) == match crate::status::status_section(s.body) {
            Some(b) => Some(seq![s.heading, Seq::<char>::empty()] + b),
            None => None,
        },
        title_of(s.heading) == "キャラクター詳細"@ ==> section_output(s, skills)
            == crate::sheet::detail_section(s),
        title_of(s.heading) == "スキル"@ && skills.len() > 0 ==> section_output(s, skills) == Some(
            trim_blank_lines(
                seq![s.heading, Seq::<char>::empty()] + crate::skills::skill_blocks(skills),
            ),
        ),
{
    reveal_strlit("ステータス");
    reveal_strlit("キャラクター詳細");
    reveal_strlit("スキル");
    reveal_strlit("アイコン画像");
    reveal_strlit("魅力");
    let t = title_of(s.heading);
    if t == "ステータス"@ {
        assert(t[0] != "アイコン画像"@[0] && t[0] != "魅力"@[0]);
    }
    if t == "キャラクター詳細"@ {
        assert(t[0] != "アイコン画像"@[0] && t[0] != "魅力"@[0] && t[0] != "ステータス"@[0]);
    }
    if t == "スキル"@ {
        assert(t[0] != "アイコン画像"@[0] && t[0] != "魅力"@[0] && t.len() != "ステータス"@.len()
            && t[0] != "キャラクター詳細"@[0]);
    }
}

/// In the `スキル` (when no skills are rendered), `性格キーワード` and `思い出`
/// sections no empty item survives below the heading.
pub proof fn law_item_sections_drop_empty_items(s: SectionView, skills: Seq<SkillView>)
    requires
        title_of(s.heading) == "スキル"@ && skills.len() == 0 || title_of(s.heading)
            == "性格キーワード"@ || title_of(s.heading) == "思い出"@,
    ensures
        section_output(s, skills) matches Some(v) ==> forall|i: int|
            2 <= i < v.len() ==> !crate::line_rules::empty_item(#[trigger] v[i]),
{
    reveal_strlit("ステータス");
    reveal_strlit("キャラクター詳細");
    reveal_strlit("スキル");
    reveal_strlit("アイコン画像");
    reveal_strlit("魅力");
    reveal_strlit("性格キーワード");
    reveal_strlit("思い出");
    let t = title_of(s.heading);
    if t == "スキル"@ {
        assert(t.len() != "ステータス"@.len());
        assert(t[0] != "アイコン画像"@[0] && t[0] != "魅力"@[0] && t[0] != "キャラクター詳細"@[0]);
    } else if t == "性格キーワード"@ {
        assert(t[0] != "アイコン画像"@[0] && t[0] != "魅力"@[0] && t[0] != "ステータス"@[0]
            && t[0] != "キャラクター詳細"@[0]);
    } else {
        assert(t[0] != "アイコン画像"@[0] && t[0] != "魅力"@[0] && t[0] != "ステータス"@[0]
            && t[0] != "キャラクター詳細"@[0]);
    }
    assert(t != "アイコン画像"@ && t != "魅力"@ && t != "ステータス"@ && t != "キャラクター詳細"@);
    assert(crate::sheet::item_section_title(t));
    if let Some(v) = section_output(s, skills) {
        let f = |l: Seq<char>|
            !crate::line_rules::empty_item(l) && !crate::line_rules::noise_line(l);
        let body = s.body.filter(f);
        assert forall|i: int| 0 <= i < body.len() implies !crate::line_rules::empty_item(
            #[trigger] body[i],
        ) by {
            s.body.lemma_filter_pred(f, i);
        }
        law_trim_blank_lines(body);
        let tb = trim_blank_lines(body);
        let a = leading_blank_count(body);
        assert(v == seq![s.heading, seq![]] + tb);
        assert forall|i: int| 2 <= i < v.len() implies !crate::line_rules::empty_item(#[trigger] v[i]) by {
            assert(v[i] == tb[i - 2]);
            assert(tb[i - 2] == body[a + i - 2]);
        }
    }
}

// ---------------------------------------------------------------------------
// What the page gives and loses
// ---------------------------------------------------------------------------

/// Preprocessing detaches, in turn, every `script`, `style`, `img`,
/// `picture`, `svg`, `canvas`, `footer` and `[hidden]` element, then the
/// elements hidden by their inline style.
pub proof fn law_stripped_selectors(page: (Seq<char>, Seq<(Seq<char>, nat, nat)>))
    ensures
        crate::page::stripped(page) == crate::page::hidden_detached(
            crate::page::detached_each(
                page,
                seq![
                    "script"@,
                    "style"@,
                    "img"@,
                    "picture"@,
                    "svg"@,
                    "canvas"@,
                    "footer"@,
                    "[hidden]"@,
                ],
            ),
        ),
{
    assert(crate::page::removed_selectors() =~= seq![
        "script"@,
        "style"@,
        "img"@,
        "picture"@,
        "svg"@,
        "canvas"@,
        "footer"@,
        "[hidden]"@,
    ]);
}

/// Every element that `[style]` selects and whose `style` attribute hides
/// it is detached.
pub proof fn law_hidden_elements_detached(
    page: (Seq<char>, Seq<(Seq<char>, nat, nat)>),
    n: nat,
    i: nat,
)
    requires
        i < n,
        crate::dom::dom_match_attribute((page, "[style]"@), i, "style"@) matches Some(st)
            && crate::page::style_hides(st),
    ensures
        crate::page::hidden_edits(page, n).contains(("[style]"@, page.1.len(), i)),
    decreases n,
{
    if n - 1 > i {
        law_hidden_elements_detached(page, (n - 1) as nat, i);
        let pre = crate::page::hidden_edits(page, (n - 1) as nat);
        let j = choose|j: int| 0 <= j < pre.len() && pre[j] == ("[style]"@, page.1.len(), i);
        let h = crate::page::hidden_edits(page, n);
        assert(h == pre || h == pre.push(h.last()));
        assert(h[j] == pre[j]);
    } else {
        let h = crate::page::hidden_edits(page, n);
        assert(h.last() == ("[style]"@, page.1.len(), i));
        assert(h[h.len() - 1] == h.last());
    }
}

/// The skills of the page are read from the `data-skill-name` and
/// `data-skill-description` attributes of the elements `[data-skill-name]`
/// selects, and from the text of the `application/json` scripts.
pub proof fn law_page_skill_sources(page: (Seq<char>, Seq<(Seq<char>, nat, nat)>), i: int)
    ensures
        crate::dom::dom_match_count(page, "[data-skill-name]"@) matches Some(n) ==> (0 <= i < n
            ==> crate::page::dom_skill_attributes(page)[i] == (
            crate::dom::dom_match_attribute(
                (page, "[data-skill-name]"@),
                i as nat,
                "data-skill-name"@,
            ),
            crate::dom::dom_match_attribute(
                (page, "[data-skill-name]"@),
                i as nat,
                "data-skill-description"@,
            ),
        )),
        crate::dom::dom_match_count(page, "script[type=\"application/json\"]"@) matches Some(n)
            ==> (0 <= i < n ==> crate::page::dom_json_texts(page)[i] == crate::dom::dom_match_text(
            (page, "script[type=\"application/json\"]"@),
            i as nat,
        )),
{
}

// ---------------------------------------------------------------------------
// File names
// ---------------------------------------------------------------------------

proof fn lemma_last_dot_suffix(x: Seq<char>, y: Seq<char>)
    requires
        y.len() > 0,
        y[0] == '.',
        forall|j: int| 0 < j < y.len() ==> y[j] != '.',
    ensures
        crate::report::last_dot(x + y) == x.len(),
    decreases y.len(),
{
    if y.len() == 1 {
        assert((x + y).last() == '.');
    } else {
        assert((x + y).last() == y.last());
        assert((x + y).drop_last() =~= x + y.drop_last());
        lemma_last_dot_suffix(x, y.drop_last());
    }
}

proof fn lemma_name_with_extension(stem: Seq<char>, y: Seq<char>)
    requires
        stem.len() > 0,
        y.len() > 1,
        y[0] == '.',
        forall|j: int| 0 < j < y.len() ==> y[j] != '.',
    ensures
        crate::report::extension_of(stem + y) == Some(y.drop_first()),
        crate::report::stem_of(stem + y) == Some(stem),
{
    lemma_last_dot_suffix(stem, y);
    let a = stem + y;
    reveal_strlit("..");
    assert(a.len() > 2);
    assert(a != ".."@);
    assert(a.subrange(stem.len() as int + 1, a.len() as int) =~= y.drop_first());
    assert(a.subrange(0, stem.len() as int) =~= stem);
}

/// Pages are the files named `<stem>.html` or `<stem>.htm`, in any letter
/// case, for a non-empty stem; the Markdown is written for that stem.
pub proof fn law_html_file_names(stem: Seq<char>)
    requires
        stem.len() > 0,
    ensures
        crate::report::html_file_name(stem + ".html"@),
        crate::report::html_file_name(stem + ".htm"@),
        crate::report::html_file_name(stem + ".HTML"@),
        !crate::report::html_file_name(stem + ".md"@),
        crate::report::stem_of(stem + ".html"@) == Some(stem),
        crate::report::stem_of(stem + ".htm"@) == Some(stem),
{
    reveal_strlit(".html");
    reveal_strlit(".htm");
    reveal_strlit(".HTML");
    reveal_strlit(".md");
    reveal_strlit("html");
    reveal_strlit("htm");
    lemma_name_with_extension(stem, ".html"@);
    lemma_name_with_extension(stem, ".htm"@);
    lemma_name_with_extension(stem, ".HTML"@);
    lemma_name_with_extension(stem, ".md"@);
    assert(".html"@.drop_first() =~= "html"@);
    assert(crate::text::lower("html"@) =~= "html"@);
    assert(".htm"@.drop_first() =~= "htm"@);
    assert(crate::text::lower("htm"@) =~= "htm"@);
    assert(crate::text::lower(".HTML"@.drop_first()) =~= "html"@);
    assert(crate::text::lower(".md"@.drop_first()).len() == 2);
}

// ---------------------------------------------------------------------------
// Empty `###` parts
// ---------------------------------------------------------------------------

proof fn lemma_h3_fold_open(h: Seq<char>, b: Seq<Seq<char>>)
    requires
        crate::text::starts_with(crate::text::trim_start_class(h, CharClass::Whitespace), "### "@),
        forall|i: int|
            0 <= i < b.len() ==> !crate::text::starts_with(
                crate::text::trim_start_class(#[trigger] b[i], CharClass::Whitespace),
                "### "@,
            ),
    ensures
        crate::sheet::h3_fold(seq![h] + b) == (Seq::<Seq<char>>::empty(), Some(h), b),
    decreases b.len(),
{
    if b.len() == 0 {
        assert(seq![h] + b =~= seq![h]);
        assert(seq![h].drop_last() =~= Seq::<Seq<char>>::empty());
        assert(seq![h].last() == h);
        assert(crate::sheet::h3_line(h));
        assert(b =~= Seq::<Seq<char>>::empty());
        let z = Seq::<Seq<char>>::empty();
        assert(crate::sheet::h3_fold(z) == (z, None::<Seq<char>>, z));
        assert(crate::sheet::h3_fold(seq![h].drop_last()) == (z, None::<Seq<char>>, z));
        assert(crate::sheet::flush_h3(z, None, z) == z);
        assert(crate::sheet::h3_fold(seq![h]) == (Seq::<Seq<char>>::empty(), Some(h), b));
    } else {
        let d = b.drop_last();
        assert forall|i: int| 0 <= i < d.len() implies !crate::text::starts_with(
            crate::text::trim_start_class(#[trigger] d[i], CharClass::Whitespace),
            "### "@,
        ) by {
            assert(d[i] == b[i]);
        }
        lemma_h3_fold_open(h, d);
        assert((seq![h] + b).drop_last() =~= seq![h] + d);
        assert((seq![h] + b).last() == b[b.len() - 1]);
        assert(!crate::sheet::h3_line(b[b.len() - 1]));
        assert(d.push(b.last()) =~= b);
    }
}

/// A part opened by a `###` heading (possibly indented) that holds nothing
/// but placeholder lines (blank lines, empty items, table rules) is
/// removed, heading and all.
pub proof fn law_empty_h3_part_removed(h: Seq<char>, b: Seq<Seq<char>>)
    requires
        crate::text::starts_with(crate::text::trim_start_class(h, CharClass::Whitespace), "### "@),
        forall|i: int|
            0 <= i < b.len() ==> !crate::text::starts_with(
                crate::text::trim_start_class(#[trigger] b[i], CharClass::Whitespace),
                "### "@,
            ),
        crate::markdown::body_is_empty(b),
    ensures
        crate::sheet::without_empty_h3(seq![h] + b) == Seq::<Seq<char>>::empty(),
{
    lemma_h3_fold_open(h, b);
    law_trim_blank_lines(b);
    let t = trim_blank_lines(b);
    let a = leading_blank_count(b);
    assert forall|i: int| 0 <= i < t.len() implies crate::markdown::placeholder_line(#[trigger] t[i]) by {
        assert(t[i] == b[a + i]);
    }
}

/// A part opened by a `###` heading that holds a line with content is
/// kept: its heading, an empty line, and its lines without blank lines at
/// either end.
pub proof fn law_h3_part_with_content_kept(h: Seq<char>, b: Seq<Seq<char>>)
    requires
        crate::text::starts_with(crate::text::trim_start_class(h, CharClass::Whitespace), "### "@),
        forall|i: int|
            0 <= i < b.len() ==> !crate::text::starts_with(
                crate::text::trim_start_class(#[trigger] b[i], CharClass::Whitespace),
                "### "@,
            ),
        !crate::markdown::body_is_empty(trim_blank_lines(b)),
    ensures
        crate::sheet::without_empty_h3(seq![h] + b) == seq![h, Seq::<char>::empty()]
            + trim_blank_lines(b),
{
    lemma_h3_fold_open(h, b);
    assert(Seq::<Seq<char>>::empty().push(h).push(seq![]) =~= seq![h, Seq::<char>::empty()]);
}

// ---------------------------------------------------------------------------
// Skill text
// ---------------------------------------------------------------------------

proof fn lemma_unify_plain(s: Seq<char>)
    requires
        forall|j: int| 0 <= j < s.len() ==> s[j] != '\r',
    ensures
        crate::skills::unify_newlines(s) == s,
    decreases s.len(),
{
    if s.len() > 0 {
        lemma_unify_plain(s.drop_first());
        assert(seq![s[0]] + s.drop_first() =~= s);
    }
}

/// A skill's name or description is normalized line by line: two trimmed,
/// non-empty lines stay two lines, joined by one line feed, without the
/// final line break.
pub proof fn law_normalized_two_lines(x: Seq<char>, y: Seq<char>)
    requires
        x.len() > 0,
        y.len() > 0,
        crate::text::trim(x) == x,
        crate::text::trim(y) == y,
        forall|j: int| 0 <= j < x.len() ==> x[j] != '\n' && x[j] != '\r',
        forall|j: int| 0 <= j < y.len() ==> y[j] != '\n' && y[j] != '\r',
    ensures
        crate::skills::normalized(x + "\n"@ + y + "\n"@) == x + "\n"@ + y,
{
    reveal_strlit("\n");
    let s = x + "\n"@ + y + "\n"@;
    assert forall|j: int| 0 <= j < s.len() implies s[j] != '\r' by {
        if j < x.len() {
            assert(s[j] == x[j]);
        } else if j == x.len() {
        } else if j < x.len() + 1 + y.len() {
            assert(s[j] == y[j - x.len() - 1]);
        }
    }
    lemma_unify_plain(s);
    let c = seq![x, y];
    assert(c[0] == x && c[1] == y);
    assert(c.drop_first() =~= seq![y]);
    assert(seq![y].drop_first() =~= Seq::<Seq<char>>::empty());
    assert(terminated(seq![y].drop_first()) == Seq::<char>::empty());
    assert(terminated(seq![y]) =~= y + "\n"@);
    assert(terminated(c) =~= s);
    assert forall|i: int, j: int| 0 <= i < c.len() && 0 <= j < c[i].len() implies #[trigger] c[i][j]
        != '\n' by {
        if i == 0 {
            assert(c[i] == x);
        } else {
            assert(c[i] == y);
        }
    }
    assert forall|i: int| 0 <= i < c.len() implies (#[trigger] c[i]).len() == 0 || c[i].last()
        != '\r' by {
        if i == 0 {
            assert(c[i] == x);
            assert(x[x.len() - 1] != '\r');
        } else {
            assert(c[i] == y);
            assert(y[y.len() - 1] != '\r');
        }
    }
    lemma_lines_terminated(c);
    let m = c.map_values(|l: Seq<char>| crate::text::trim(l));
    assert(m =~= c);
    let f = m.filter(|l: Seq<char>| l.len() > 0);
    reveal_with_fuel(Seq::filter, 3);
    assert(m.drop_last() =~= seq![x]);
    assert(seq![x].drop_last() =~= Seq::<Seq<char>>::empty());
    assert(f =~= c);
    reveal_with_fuel(crate::text::join, 3);
    assert(c.drop_last() =~= seq![x]);
    assert(crate::text::join(c, "\n"@) =~= x + "\n"@ + y);
}

// ---------------------------------------------------------------------------
// The log
// ---------------------------------------------------------------------------

/// The log of one file: an empty line, `[OK] ` or `[NG] ` (when it failed)
/// before the input path, the input and output file names, the error when
/// there is one, then one `name: <n> ms` line per stage.
pub proof fn law_result_log_lines(r: crate::report::FileResult)
    ensures
        ({
            let ls = crate::report::result_lines(r);
            let e = if r.error is Some {
                1int
            } else {
                0int
            };
            &&& ls.len() == 4 + e + r.timings@.len()
            &&& ls[0] == Seq::<char>::empty()
            &&& ls[1] == (if r.error is Some {
                "[NG] "@
            } else {
                "[OK] "@
            }) + r.input@
            &&& ls[2] == "入力ファイル名: "@ + r.input@
            &&& ls[3] == match r.output {
                Some(o) => "出力ファイル名: "@ + o@,
                None => "出力ファイル名: (not created)"@,
            }
            &&& r.error matches Some(m) ==> ls[4] == "エラー詳細: "@ + m@
            &&& forall|i: int|
                0 <= i < r.timings@.len() ==> ls[4 + e + i] == (#[trigger] r.timings@[i]).name@
                    + ": "@ + crate::text::decimal(r.timings@[i].millis as nat) + " ms"@
        }),
{
    let t = r.timings@;
    lemma_timing_lines(t);
}

proof fn lemma_timing_lines(t: Seq<crate::report::StageTiming>)
    ensures
        crate::report::timing_lines(t).len() == t.len(),
        forall|i: int|
            0 <= i < t.len() ==> crate::report::timing_lines(t)[i] == (#[trigger] t[i]).name@
                + ": "@ + crate::text::decimal(t[i].millis as nat) + " ms"@,
    decreases t.len(),
{
    if t.len() > 0 {
        lemma_timing_lines(t.drop_last());
        assert forall|i: int| 0 <= i < t.len() implies crate::report::timing_lines(t)[i] == (
        #[trigger] t[i]).name@ + ": "@ + crate::text::decimal(t[i].millis as nat) + " ms"@ by {
            if i < t.len() - 1 {
                assert(t[i] == t.drop_last()[i]);
            }
        }
    }
}

/// A run counts as successful the files converted without an error.
pub proof fn law_success_count(rs: Seq<crate::report::FileResult>)
    ensures
        crate::report::success_count(rs) == rs.filter(
            |r: crate::report::FileResult| r.error is None,
        ).len(),
    decreases rs.len(),
{
    reveal_with_fuel(Seq::filter, 1);
    if rs.len() > 0 {
        law_success_count(rs.drop_last());
    }
}

/// What the run reports at its end: a hint to fill the input folder when
/// there was nothing to convert, otherwise the counts and where the log is.
pub proof fn law_completion_text(s: crate::report::RunSummary)
    ensures
        s.total == 0 ==> crate::report::completion_text(s)
            == "完了: 変換対象のHTMLファイルはありません。input フォルダに .html または .htm を入れてください。"@,
        s.total != 0 ==> crate::report::completion_text(s) == "完了: 変換対象 "@ + crate::text::decimal(
            s.total as nat,
        ) + "件 / 成功 "@ + crate::text::decimal(s.success as nat) + "件 / 失敗 "@
            + crate::text::decimal(s.failure as nat) + "件。詳細は log.txt を確認してください。"@,
{
}

/// The lines that open and close the log of a run.
pub proof fn law_run_log_frame(
    version: Seq<char>,
    started: crate::report::EpochOffset,
    base_dir: Seq<char>,
    input_dir: Seq<char>,
    output_dir: Seq<char>,
    total: nat,
    collect_millis: nat,
    s: crate::report::RunSummary,
    total_millis: nat,
)
    ensures
        crate::report::header_lines(
            version,
            started,
            base_dir,
            input_dir,
            output_dir,
            total,
            collect_millis,
        ) == seq![
            "ツール名: saga-seeker-html2md"@,
            "バージョン: "@ + version,
            "実行日時: "@ + match started {
                crate::report::EpochOffset::After(secs) => crate::text::decimal(secs as nat)
                    + " seconds since Unix epoch"@,
                crate::report::EpochOffset::Before(ms) => "before Unix epoch by "@
                    + crate::text::decimal(ms as nat) + " ms"@,
            },
            "実行ディレクトリ: "@ + base_dir,
            "input フォルダ: "@ + input_dir,
            "output フォルダ: "@ + output_dir,
            "変換対象ファイル数: "@ + crate::text::decimal(total),
            "ファイル一覧収集: "@ + crate::text::decimal(collect_millis) + " ms"@,
        ],
        crate::report::footer_lines(s, total_millis) == seq![
            Seq::<char>::empty(),
            "合計件数: "@ + crate::text::decimal(s.total as nat),
            "成功件数: "@ + crate::text::decimal(s.success as nat),
            "失敗件数: "@ + crate::text::decimal(s.failure as nat),
            "合計時間: "@ + crate::text::decimal(total_millis) + " ms"@,
        ],
{
    assert(crate::report::header_lines(
            version,
            started,
            base_dir,
            input_dir,
            output_dir,
            total,
            collect_millis,
        ) =~~= seq![
            "ツール名: saga-seeker-html2md"@,
            "バージョン: "@ + version,
            "実行日時: "@ + match started {
                crate::report::EpochOffset::After(secs) => crate::text::decimal(secs as nat)
                    + " seconds since Unix epoch"@,
                crate::report::EpochOffset::Before(ms) => "before Unix epoch by "@
                    + crate::text::decimal(ms as nat) + " ms"@,
            },
            "実行ディレクトリ: "@ + base_dir,
            "input フォルダ: "@ + input_dir,
            "output フォルダ: "@ + output_dir,
            "変換対象ファイル数: "@ + crate::text::decimal(total),
            "ファイル一覧収集: "@ + crate::text::decimal(collect_millis) + " ms"@,
        ]);
    assert(crate::report::footer_lines(s, total_millis) =~~= seq![
            Seq::<char>::empty(),
            "合計件数: "@ + crate::text::decimal(s.total as nat),
            "成功件数: "@ + crate::text::decimal(s.success as nat),
            "失敗件数: "@ + crate::text::decimal(s.failure as nat),
            "合計時間: "@ + crate::text::decimal(total_millis) + " ms"@,
        ]);
}

// ---------------------------------------------------------------------------
// Statuses over two lines, styles, decoding
// ---------------------------------------------------------------------------

/// The names that end a status's entry.
pub open spec fn entry_boundary_list() -> Seq<Seq<char>> {
    seq!["筋力"@, "耐久力"@, "知力"@, "精神力"@, "素早さ"@, "運"@, "魅力"@]
}

proof fn lemma_entry_end_open(ls: Seq<Seq<char>>, start: int, name: Seq<char>, bounds: Seq<Seq<char>>)
    requires
        0 <= start,
        forall|i: int|
            0 <= i < bounds.len() ==> crate::status::first_stat_line(ls, #[trigger] bounds[i], start + 1)
                == -1,
    ensures
        crate::status::entry_end(ls, start, name, bounds) == ls.len(),
    decreases bounds.len(),
{
    if bounds.len() > 0 {
        let d = bounds.drop_last();
        assert forall|i: int| 0 <= i < d.len() implies crate::status::first_stat_line(
            ls,
            #[trigger] d[i],
            start + 1,
        ) == -1 by {
            assert(d[i] == bounds[i]);
        }
        lemma_entry_end_open(ls, start, name, d);
        assert(crate::status::first_stat_line(ls, bounds[bounds.len() - 1], start + 1) == -1);
    }
}

/// A status's rank is read from the last line of its entry that holds one:
/// a status line followed by a line that names no status nor `魅力` takes
/// the rank that the second line ends with.
pub proof fn law_status_rank_from_last_line(l1: Seq<char>, l2: Seq<char>, k: int, j: int)
    requires
        0 <= k < 6,
        0 <= j < 7,
        crate::text::starts_with(crate::line_rules::clean_marker(l1), status_name_list()[k]),
        forall|i: int|
            0 <= i < 7 ==> !crate::text::starts_with(
                crate::line_rules::clean_marker(l2),
                #[trigger] entry_boundary_list()[i],
            ),
        crate::text::ends_with(crate::line_rules::clean_marker(l2), rank_list()[j]),
        forall|i: int|
            0 <= i < j ==> crate::line_rules::clean_marker(l2) != #[trigger] rank_list()[i]
                && !crate::text::ends_with(crate::line_rules::clean_marker(l2), rank_list()[i]),
    ensures
        crate::status::status_entry(seq![l1, l2], status_name_list()[k]) == Some(
            "- "@ + status_name_list()[k] + ": "@ + rank_list()[j],
        ),
{
    let ls = seq![l1, l2];
    let name = status_name_list()[k];
    assert(ls[0] == l1 && ls[1] == l2);
    assert(crate::line_rules::contains_stat_name(ls[0], name));
    assert(crate::status::first_stat_line(ls, name, 0) == 0);
    let bounds = crate::status::boundary_names();
    assert(bounds =~= entry_boundary_list());
    assert forall|i: int| 0 <= i < bounds.len() implies crate::status::first_stat_line(
        ls,
        #[trigger] bounds[i],
        1,
    ) == -1 by {
        let b = bounds[i];
        assert(b == entry_boundary_list()[i]);
        if crate::line_rules::contains_stat_name(ls[1], b) {
            let c = crate::line_rules::clean_marker(l2);
            if c == b {
                assert(c.subrange(0, b.len() as int) =~= b);
            }
            if crate::text::starts_with(c, b + ":"@) {
                assert(c.subrange(0, b.len() as int) =~= (b + ":"@).subrange(0, b.len() as int));
                assert((b + ":"@).subrange(0, b.len() as int) =~= b);
            }
        }
        assert(crate::status::first_stat_line(ls, b, 2) == -1);
    }
    lemma_entry_end_open(ls, 0, name, bounds);
    assert(ls.subrange(0, 2) =~= ls);
    assert(status_ranks() =~= rank_list());
    lemma_rank_in_first(crate::line_rules::clean_marker(l2), rank_list(), j);
    assert(ls.last() == l2);
    assert(rank_of_lines(ls) == Some(rank_list()[j]));
}

proof fn lemma_lower_idempotent(s: Seq<char>)
    ensures
        crate::text::lower(crate::text::lower(s)) == crate::text::lower(s),
{
    let l = crate::text::lower(s);
    assert forall|j: int| 0 <= j < l.len() implies #[trigger] crate::text::ascii_lower(l[j]) == l[j] by {
        let c = s[j];
        if 'A' <= c && c <= 'Z' {
            assert(l[j] == ((c as u32) + 32) as char);
        }
    }
    assert(crate::text::lower(l) =~= l);
}

/// Whether an inline style hides its element does not depend on letter
/// case: `DISPLAY:NONE` hides as `display:none` does.
pub proof fn law_hiding_style_ignores_case(s: Seq<char>)
    ensures
        crate::page::style_hides(crate::text::lower(s)) == crate::page::style_hides(s),
{
    lemma_lower_idempotent(s);
}

/// The text of a page's bytes: after a UTF-8 byte order mark, the rest
/// read as UTF-8 when it is UTF-8; without the mark, the bytes read as
/// UTF-8 when they are UTF-8; Shift_JIS otherwise.
pub proof fn law_decoded_page(rest: Seq<u8>)
    ensures
        vstd::utf8::valid_utf8(rest) ==> crate::page::decoded_page(seq![0xEFu8, 0xBBu8, 0xBFu8] + rest)
            == vstd::utf8::decode_utf8(rest),
        !vstd::utf8::valid_utf8(rest) ==> crate::page::decoded_page(seq![0xEFu8, 0xBBu8, 0xBFu8] + rest)
            == crate::page::shift_jis_decoded(seq![0xEFu8, 0xBBu8, 0xBFu8] + rest),
        !(rest.len() >= 3 && rest[0] == 0xEF && rest[1] == 0xBB && rest[2] == 0xBF) ==> crate::page::decoded_page(rest)
            == if vstd::utf8::valid_utf8(rest) {
            vstd::utf8::decode_utf8(rest)
        } else {
            crate::page::shift_jis_decoded(rest)
        },
{
    let b = seq![0xEFu8, 0xBBu8, 0xBFu8] + rest;
    assert(b.subrange(3, b.len() as int) =~= rest);
}

// ---------------------------------------------------------------------------
// Filling descriptions in a merge
// ---------------------------------------------------------------------------

proof fn lemma_merged_concat(a: Seq<SkillView>, p: Seq<SkillView>, q: Seq<SkillView>)
    ensures
        merged(a, p + q) == merged(merged(a, p), q),
    decreases q.len(),
{
    if q.len() == 0 {
        assert(p + q =~= p);
    } else {
        lemma_merged_concat(a, p, q.drop_last());
        assert((p + q).drop_last() =~= p + q.drop_last());
        assert((p + q).last() == q.last());
    }
}

proof fn lemma_merged_untouched(a: Seq<SkillView>, f: Seq<SkillView>, i: int)
    requires
        0 <= i < a.len(),
        forall|m: int| 0 <= m < i ==> a[m].name != a[i].name,
        forall|m: int|
            0 <= m < f.len() && (#[trigger] f[m]).name == a[i].name ==> f[m].description is None,
    ensures
        merged(a, f).len() > i,
        merged(a, f)[i] == a[i],
        name_index(merged(a, f), a[i].name) == i,
    decreases f.len(),
{
    if f.len() == 0 {
        crate::skills::lemma_name_index_found(a, a[i].name, i);
    } else {
        let d = f.drop_last();
        assert forall|m: int| 0 <= m < d.len() && (#[trigger] d[m]).name == a[i].name implies d[m].description
            is None by {
            assert(d[m] == f[m]);
        }
        lemma_merged_untouched(a, d, i);
        let mm = merged(a, d);
        let x = f.last();
        assert(f[f.len() - 1] == x);
        law_merge_keeps_existing(a, d);
        lemma_name_index(mm, x.name);
        let r = merged(a, f);
        assert(r[i] == a[i]);
        assert forall|m: int| 0 <= m < i implies r[m].name != a[i].name by {
            law_merge_keeps_existing(a, f);
        }
        law_merge_keeps_existing(a, f);
        crate::skills::lemma_name_index_found(r, a[i].name, i);
    }
}

/// A skill without a description gains the description of the first
/// fallback skill of the same name that has one.
pub proof fn law_merge_fills_description(a: Seq<SkillView>, f: Seq<SkillView>, i: int, j: int)
    requires
        0 <= i < a.len(),
        forall|m: int| 0 <= m < i ==> a[m].name != a[i].name,
        a[i].description is None,
        0 <= j < f.len(),
        f[j].name == a[i].name,
        f[j].description is Some,
        forall|m: int|
            0 <= m < j && (#[trigger] f[m]).name == a[i].name ==> f[m].description is None,
    ensures
        merged(a, f)[i].description == f[j].description,
{
    let p = f.take(j);
    assert forall|m: int| 0 <= m < p.len() && (#[trigger] p[m]).name == a[i].name implies p[m].description
        is None by {
        assert(p[m] == f[m]);
    }
    lemma_merged_untouched(a, p, i);
    let mp = merged(a, p);
    let p1 = f.take(j + 1);
    assert(p1.drop_last() =~= p);
    assert(p1.last() == f[j]);
    let m1 = merged(a, p1);
    assert(m1 == crate::skills::merge_one(mp, f[j]));
    assert(m1[i].description == f[j].description);
    let q = f.skip(j + 1);
    assert(p1 + q =~= f);
    lemma_merged_concat(a, p1, q);
    law_merge_keeps_existing(m1, q);
}

// ---------------------------------------------------------------------------
// More of the vocabulary
// ---------------------------------------------------------------------------

/// The Markdown for `<stem>.html` is written to `<stem>.md`, and a failed
/// file's timings end with its total time, `ファイル合計時間`.
pub proof fn law_output_names(stem: Seq<char>)
    requires
        stem.len() > 0,
    ensures
        crate::report::stem_of(stem + ".html"@) == Some(stem),
        crate::report::output_name_of(stem) == stem + ".md"@,
        crate::report::total_stage_name() == "ファイル合計時間"@,
{
    law_html_file_names(stem);
}

/// The lines that the first pass keeps are trimmed on the right.
pub proof fn law_initial_lines_right_trimmed(markdown: Seq<char>, i: int)
    requires
        0 <= i < crate::markdown::initial_lines(markdown).len(),
    ensures
        crate::markdown::initial_lines(markdown)[i].len() == 0 || !is_whitespace(
            crate::markdown::initial_lines(markdown)[i].last(),
        ),
{
    let m = lines(markdown).map_values(|l: Seq<char>| trim_end(l));
    let p = |l: Seq<char>| !image_line(l) && !footer_line(l);
    let f = m.filter(p);
    let x = f[i];
    assert(f.contains(x));
    m.lemma_filter_contains_rev(p, x);
    let j = choose|j: int| 0 <= j < m.len() && m[j] == x;
    lemma_trim_end_prefix(lines(markdown)[j], CharClass::Whitespace);
}

proof fn lemma_all_blank(s: Seq<char>)
    requires
        forall|j: int| 0 <= j < s.len() ==> is_whitespace(#[trigger] s[j]),
    ensures
        is_blank(s),
{
    crate::text::lemma_trim_start_suffix(s, CharClass::Whitespace);
    let r = crate::text::trim_start_class(s, CharClass::Whitespace);
    if r.len() > 0 {
        assert(r[0] == s[s.len() - r.len()]);
    }
    assert(r =~= Seq::<char>::empty());
    assert(crate::text::trim_end_class(r, CharClass::Whitespace) == r);
}

/// A heading with no text, nothing but `#` marks and whitespace such as
/// `##` or `### `, is noise.
pub proof fn law_empty_headings_are_noise(l: Seq<char>, a: int)
    requires
        0 < a <= crate::text::trim(l).len(),
        forall|j: int| 0 <= j < a ==> #[trigger] crate::text::trim(l)[j] == '#',
        forall|j: int|
            a <= j < crate::text::trim(l).len() ==> is_whitespace(#[trigger] crate::text::trim(l)[j]),
    ensures
        crate::line_rules::noise_line(l),
{
    let t = crate::text::trim(l);
    let rest = crate::text::trim_start_class(t, CharClass::Hash);
    crate::text::lemma_trim_start_suffix(t, CharClass::Hash);
    let b = t.len() - rest.len();
    if b < a && rest.len() > 0 {
        assert(rest[0] == t[b]);
    }
    assert(b >= a);
    assert forall|j: int| 0 <= j < rest.len() implies is_whitespace(#[trigger] rest[j]) by {
        assert(rest[j] == t[b + j]);
    }
    lemma_all_blank(rest);
    assert(crate::line_rules::empty_heading(t));
}

/// A style holding `display: none`, written with a space after the colon
/// and anywhere in the style, hides its element: whitespace does not count.
#[verifier::spinoff_prover]
#[verifier::rlimit(100)]
pub proof fn law_hiding_style_with_spaces(x: Seq<char>, y: Seq<char>)
    ensures
        crate::page::style_hides(x + "display: none"@ + y),
{
    broadcast use vstd::seq::Seq::filter_distributes_over_add;

    reveal_strlit("display: none");
    reveal_strlit("display:none");
    let p = "display: none"@;
    let s = x + p + y;
    let l = crate::text::lower(s);
    assert(l =~= crate::text::lower(x) + crate::text::lower(p) + crate::text::lower(y));
    assert(crate::text::lower(p) =~= p);
    let c = crate::page::compact_style(s);
    let lx = crate::text::lower(x).filter(|ch: char| !is_whitespace(ch));
    let ly = crate::text::lower(y).filter(|ch: char| !is_whitespace(ch));
    reveal_with_fuel(Seq::filter, 14);
    assert(c =~= lx + "display:none"@ + ly);
    assert(crate::text::occurs_at(c, "display:none"@, lx.len() as int)) by {
        assert(c.subrange(lx.len() as int, lx.len() as int + 12) =~= "display:none"@);
    }
}

/// Letters `A` to `Z` are lowered to `a` to `z`; every other character is
/// left as it is.
pub proof fn law_ascii_lower(c: char)
    ensures
        'A' <= c && c <= 'Z' ==> crate::text::ascii_lower(c) as u32 == c as u32 + 32,
        !('A' <= c && c <= 'Z') ==> crate::text::ascii_lower(c) == c,
{
}

/// Spaces, tabs, line breaks, the no-break space and the ideographic space
/// count as whitespace; letters, digits and `#` do not.
pub proof fn law_whitespace(c: char)
    ensures
        c == ' ' || c == '\t' || c == '\n' || c == '\r' || c == '\u{a0}' || c == '\u{3000}'
            ==> is_whitespace(c),
        ('a' <= c && c <= 'z') || ('A' <= c && c <= 'Z') || ('0' <= c && c <= '9') || c == '#'
            ==> !is_whitespace(c),
{
}

/// The characters stripped before an item's text: the bullets `-`, `*`,
/// `＊`, `+`, `・`, and the digits and dots of a numbering.
pub proof fn law_list_markers(c: char)
    ensures
        c == '-' || c == '*' || c == '＊' || c == '+' || c == '・' || ('0' <= c && c <= '9') || c
            == '.' ==> crate::text::is_list_marker(c),
        ('a' <= c && c <= 'z') || c == '#' || c == ' ' ==> !crate::text::is_list_marker(c),
{
}

/// A kept section follows what came before it after one empty line (none
/// when the output is empty or already ends with an empty line).
pub proof fn law_sections_separated(
    out: Seq<Seq<char>>,
    s: SectionView,
    skills: Seq<SkillView>,
)
    ensures
        section_output(s, skills) matches Some(v) ==> crate::sheet::sections_output(
            out,
            seq![s],
            skills,
        ) == if out.len() > 0 && out.last().len() > 0 {
            out + seq![Seq::<char>::empty()] + v
        } else {
            out + v
        },
        section_output(s, skills) is None ==> crate::sheet::sections_output(out, seq![s], skills)
            == out,
{
    assert(seq![s].drop_last() =~= Seq::<SectionView>::empty());
    assert(crate::sheet::sections_output(out, Seq::<SectionView>::empty(), skills) == out);
    assert(crate::sheet::sections_output(out, seq![s].drop_last(), skills) == out);
    assert(seq![s].last() == s);
    assert(out.push(seq![]) =~= out + seq![Seq::<char>::empty()]);
}

/// How a skill is rendered: a skill with a description as a `### name`
/// heading, an empty line, the description's lines and an empty line; one
/// without as a `- name` item.
pub proof fn law_skill_block(sk: SkillView)
    ensures
        sk.description matches Some(d) ==> crate::skills::skill_block(sk) == seq![
            "### "@ + sk.name,
            Seq::<char>::empty(),
        ] + lines(d) + seq![Seq::<char>::empty()],
        sk.description is None ==> crate::skills::skill_block(sk) == seq!["- "@ + sk.name],
{
}

/// Each JSON text that parses contributes, after the texts before it, the
/// skills found in its value; one that does not parse contributes none.
pub proof fn law_json_texts_contribute(texts: Seq<Seq<char>>, t: Seq<char>)
    ensures
        skills_in_texts(texts.push(t)) == skills_in_texts(texts) + match crate::json::parsed_json(t) {
            Some(v) => skills_in_value(v),
            None => Seq::<SkillView>::empty(),
        },
{
    assert(texts.push(t).drop_last() =~= texts);
}

/// The skills in an array are those of its items in order; the skills in
/// an object are those of its members in order; scalars hold none.
pub proof fn law_json_values_contribute(items: Seq<JsonValue>, v: JsonValue)
    ensures
        skills_in_items(items.push(v)) == skills_in_items(items) + skills_in_value(v),
        skills_in_items(Seq::<JsonValue>::empty()) == Seq::<SkillView>::empty(),
        v matches JsonValue::Array(a) ==> skills_in_value(v) == skills_in_items(a@),
        v matches JsonValue::Object(p) ==> skills_in_value(v) == skills_in_pairs(p@),
        !(v is Array || v is Object) ==> skills_in_value(v) == Seq::<SkillView>::empty(),
{
    assert(items.push(v).drop_last() =~= items);
}

/// Table rules (`| --- | :-: |`) and rows of empty cells (`| | |`), and
/// rows of stars (`***`, `＊＊`), are recognised as such; a table rule
/// counts as no content.
pub proof fn law_tables_and_star_rows(l: Seq<char>)
    ensures
        ({
            let t = crate::text::trim(l);
            &&& t.len() > 0 && t[0] == '|' && t.last() == '|' && (forall|i: int|
                0 <= i < t.len() ==> (#[trigger] t[i] == '|' || t[i] == '-' || t[i] == ':'
                    || t[i] == ' ' || t[i] == '\t')) ==> crate::line_rules::table_separator(l)
                && crate::markdown::placeholder_line(l)
            &&& t.len() > 0 && t[0] == '|' && t.last() == '|' && (forall|i: int|
                0 <= i < t.len() ==> (#[trigger] t[i] == '|' || is_whitespace(t[i])))
                ==> crate::line_rules::empty_table_row(l)
        }),
        ({
            let c = crate::line_rules::clean_marker(l);
            c.len() > 0 && ((forall|i: int| 0 <= i < c.len() ==> #[trigger] c[i] == '*') || (forall|
                i: int,
            |
                0 <= i < c.len() ==> #[trigger] c[i] == '＊')) ==> crate::line_rules::useless_status_marker(l)
        }),
{
    let t = crate::text::trim(l);
    lemma_trim_idempotent(l);
}

/// The page text handed to the converter is the serialized page when it
/// is UTF-8, and the original HTML when serializing failed or gave bytes
/// that are not UTF-8.
pub proof fn law_page_text(serialized: Option<Seq<u8>>, original: Seq<char>)
    ensures
        serialized is Some && vstd::utf8::valid_utf8(serialized->0) ==> crate::page::page_text_of(
            serialized,
            original,
        ) == vstd::utf8::decode_utf8(serialized->0),
        serialized is Some && !vstd::utf8::valid_utf8(serialized->0) ==> crate::page::page_text_of(
            serialized,
            original,
        ) == original,
        serialized is None ==> crate::page::page_text_of(serialized, original) == original,
{
}

} // verus!
