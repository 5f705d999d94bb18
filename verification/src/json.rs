//! Skills embedded as JSON in the page: a JSON document model, its parsing,
//! and the search for `skills` arrays in it.
use vstd::prelude::*;
use crate::skills::{make_skill_info, skill_of, skill_views, SkillInfo, SkillView};
use crate::text::{chars_eq, chars_of, string_of, trim, trim_slice};

verus! {

/// A JSON value. Object members keep the order in which the parser lists them.
pub enum JsonValue {
    Null,
    Bool(bool),
    /// A number, by its text.
    Number(String),
    Str(String),
    Array(Vec<JsonValue>),
    Object(Vec<(String, JsonValue)>),
}

#[verifier::external_type_specification]
#[verifier::external_body]
pub struct ExSerdeJsonValue(serde_json::Value);

/// What `serde_json::from_str::<serde_json::Value>` makes of a text: `None`
/// where it reports an error.
pub uninterp spec fn parsed_json(text: Seq<char>) -> Option<JsonValue>;

/// Parses a JSON text with `serde_json::from_str::<serde_json::Value>`.
/// Trusted: the result is what that parser gives for the text, `None` where
/// it fails.
#[verifier::external_body]
fn parse_json(text: &str) -> (r: Option<JsonValue>)
    ensures
        r == parsed_json(text@),
{
    match serde_json::from_str::<serde_json::Value>(text) {
        Ok(v) => Some(json_from_serde(v)),
        Err(_) => None,
    }
}

/// Moves a `serde_json::Value` into a [`JsonValue`], variant for variant,
/// object members in the map's own order. Trusted as part of [`parse_json`].
#[verifier::external_body]
fn json_from_serde(v: serde_json::Value) -> JsonValue {
    match v {
        serde_json::Value::Null => JsonValue::Null,
        serde_json::Value::Bool(b) => JsonValue::Bool(b),
        serde_json::Value::Number(n) => JsonValue::Number(n.to_string()),
        serde_json::Value::String(s) => JsonValue::Str(s),
        serde_json::Value::Array(a) => JsonValue::Array(a.into_iter().map(json_from_serde).collect()),
        serde_json::Value::Object(m) => JsonValue::Object(
            m.into_iter().map(|(k, x)| (k, json_from_serde(x))).collect(),
        ),
    }
}

/// The value of the first member named `key`.
pub open spec fn object_get(pairs: Seq<(String, JsonValue)>, key: Seq<char>) -> Option<JsonValue>
    decreases pairs.len(),
{
    if pairs.len() == 0 {
        None
    } else if pairs[0].0@ == key {
        Some(pairs[0].1)
    } else {
        object_get(pairs.drop_first(), key)
    }
}

/// The trimmed text of the first of `keys` whose member is a string that is
/// not blank.
pub open spec fn string_field_of(pairs: Seq<(String, JsonValue)>, keys: Seq<Seq<char>>) -> Option<
    Seq<char>,
>
    decreases keys.len(),
{
    if keys.len() == 0 {
        None
    } else {
        let here = match object_get(pairs, keys[0]) {
            Some(JsonValue::Str(s)) => if trim(s@).len() > 0 {
                Some(trim(s@))
            } else {
                None
            },
            _ => None,
        };
        if here is Some {
            here
        } else {
            string_field_of(pairs, keys.drop_first())
        }
    }
}

pub open spec fn name_keys() -> Seq<Seq<char>> {
    seq!["name"@, "skillName"@, "title"@, "label"@]
}

pub open spec fn description_keys() -> Seq<Seq<char>> {
    seq!["description"@, "skillDescription"@, "detail"@, "text"@]
}

/// The skill that one item of a `skills` array gives.
pub open spec fn skill_of_json(v: JsonValue) -> Option<SkillView> {
    match v {
        JsonValue::Object(pairs) => match string_field_of(pairs@, name_keys()) {
            None => None,
            Some(n) => skill_of(
                n,
                match string_field_of(pairs@, description_keys()) {
                    Some(d) => d,
                    None => seq![],
                },
            ),
        },
        _ => None,
    }
}

/// The skills of the items of a `skills` array.
pub open spec fn skill_list(items: Seq<JsonValue>) -> Seq<SkillView> {
    items.filter_map(|v: JsonValue| skill_of_json(v))
}

/// The skills found in a value: in every `skills` array of every object,
/// outside members named `魅力`, depth first and in member order.
pub open spec fn skills_in_value(v: JsonValue) -> Seq<SkillView>
    decreases v,
{
    match v {
        JsonValue::Object(pairs) => skills_in_pairs(pairs@),
        JsonValue::Array(items) => skills_in_items(items@),
        _ => seq![],
    }
}

pub open spec fn skills_in_items(items: Seq<JsonValue>) -> Seq<SkillView>
    decreases items,
{
    if items.len() == 0 {
        seq![]
    } else {
        skills_in_items(items.drop_last()) + skills_in_value(items.last())
    }
}

pub open spec fn skills_in_pairs(pairs: Seq<(String, JsonValue)>) -> Seq<SkillView>
    decreases pairs,
{
    if pairs.len() == 0 {
        seq![]
    } else {
        let pre = skills_in_pairs(pairs.drop_last());
        let key = pairs.last().0@;
        let child = pairs.last().1;
        if key == "skills"@ {
            pre + match child {
                JsonValue::Array(items) => skill_list(items@),
                _ => seq![],
            }
        } else if key != "魅力"@ {
            pre + skills_in_value(child)
        } else {
            pre
        }
    }
}

/// The skills in the JSON texts: each text that parses contributes the
/// skills found in its value.
pub open spec fn skills_in_texts(texts: Seq<Seq<char>>) -> Seq<SkillView>
    decreases texts.len(),
{
    if texts.len() == 0 {
        seq![]
    } else {
        skills_in_texts(texts.drop_last()) + match parsed_json(texts.last()) {
            Some(v) => skills_in_value(v),
            None => seq![],
        }
    }
}

// ---------------------------------------------------------------------------
// Executable functions
// ---------------------------------------------------------------------------

fn key_is(key: &String, lit: &str) -> (r: bool)
    ensures
        r == (key@ == lit@),
{
    let a = chars_of(key.as_str());
    let b = chars_of(lit);
    chars_eq(a.as_slice(), b.as_slice())
}

fn get_member<'a>(pairs: &'a Vec<(String, JsonValue)>, key: &str) -> (r: Option<&'a JsonValue>)
    ensures
        match r {
            Some(v) => object_get(pairs@, key@) == Some(*v),
            None => object_get(pairs@, key@) is None,
        },
{
    let n = pairs.len();
    let mut i: usize = 0;
    assert(pairs@.subrange(0, n as int) =~= pairs@);
    while i < n
        invariant
            n == pairs@.len(),
            i <= n,
            object_get(pairs@, key@) == object_get(pairs@.subrange(i as int, n as int), key@),
        decreases n - i,
    {
        let ghost rest = pairs@.subrange(i as int, n as int);
        assert(rest[0] == pairs@[i as int]);
        assert(rest.drop_first() =~= pairs@.subrange(i + 1, n as int));
        if key_is(&pairs[i].0, key) {
            return Some(&pairs[i].1);
        }
        i += 1;
    }
    None
}

/// The trimmed text of the first of `keys` whose member is a non-blank string.
pub fn string_field(pairs: &Vec<(String, JsonValue)>, keys: &Vec<&str>) -> (r: Option<String>)
    ensures
        crate::skills::opt_view(r) == string_field_of(pairs@, keys@.map_values(|k: &str| k@)),
{
    let ghost ks = keys@.map_values(|k: &str| k@);
    let n = keys.len();
    assert(ks.subrange(0, n as int) =~= ks);
    for i in 0..n
        invariant
            n == keys@.len(),
            ks == keys@.map_values(|k: &str| k@),
            string_field_of(pairs@, ks) == string_field_of(pairs@, ks.subrange(i as int, n as int)),
    {
        let ghost rest = ks.subrange(i as int, n as int);
        assert(rest[0] == keys@[i as int]@);
        assert(rest.drop_first() =~= ks.subrange(i + 1, n as int));
        if let Some(JsonValue::Str(s)) = get_member(pairs, keys[i]) {
            let v = chars_of(s.as_str());
            let t = trim_slice(v.as_slice());
            if t.len() > 0 {
                return Some(string_of(t));
            }
        }
    }
    None
}

/// The skill that one item of a `skills` array gives.
pub fn skill_from_json_item(value: &JsonValue) -> (r: Option<SkillInfo>)
    ensures
        crate::skills::opt_skill_view(r) == skill_of_json(*value),
{
    let pairs = match value {
        JsonValue::Object(pairs) => pairs,
        _ => {
            return None;
        },
    };
    let name_keys_v = vec!["name", "skillName", "title", "label"];
    assert(name_keys_v@.map_values(|k: &str| k@) =~= name_keys());
    let type_keys_v = vec!["type", "skillType", "category"];
    let description_keys_v = vec!["description", "skillDescription", "detail", "text"];
    assert(description_keys_v@.map_values(|k: &str| k@) =~= description_keys());
    let name = match string_field(pairs, &name_keys_v) {
        Some(n) => n,
        None => {
            return None;
        },
    };
    let skill_type = match string_field(pairs, &type_keys_v) {
        Some(t) => t,
        None => String::new(),
    };
    let description = match string_field(pairs, &description_keys_v) {
        Some(d) => d,
        None => String::new(),
    };
    make_skill_info(name.as_str(), skill_type.as_str(), description.as_str())
}

/// Appends to `skills` the skills found in `value`.
pub fn collect_skills_from_value(value: &JsonValue, skills: &mut Vec<SkillInfo>)
    ensures
        skill_views(final(skills)@) == skill_views(old(skills)@) + skills_in_value(*value),
    decreases value,
{
    let ghost start = skill_views(skills@);
    match value {
        JsonValue::Object(map) => {
            for i in 0..map.len()
                invariant
                    *value == JsonValue::Object(*map),
                    skill_views(skills@) == start + skills_in_pairs(map@.take(i as int)),
            {
                let ghost pre = map@.take(i as int + 1);
                assert(pre.drop_last() =~= map@.take(i as int));
                assert(pre.last() == map@[i as int]);
                let ghost acc = skill_views(skills@);
                let key = &map[i].0;
                let child = &map[i].1;
                if key_is(key, "skills") {
                    if let JsonValue::Array(items) = child {
                        for j in 0..items.len()
                            invariant
                                skill_views(skills@) == acc + skill_list(items@.take(j as int)),
                        {
                            proof {
                                reveal_with_fuel(Seq::filter_map, 1);
                                assert(items@.take(j as int + 1).drop_last() =~= items@.take(
                                    j as int,
                                ));
                            }
                            if let Some(skill) = skill_from_json_item(&items[j]) {
                                let ghost b = skill_views(skills@);
                                skills.push(skill);
                                assert(skill_views(skills@) =~= b + seq![skill@]);
                            }
                        }
                        assert(items@.take(items@.len() as int) =~= items@);
                    }
                    assert(skill_views(skills@) =~= start + skills_in_pairs(pre));
                } else if !key_is(key, "魅力") {
                    proof {
                        assert(decreases_to!(*value => (*value)->Object_0));
                        assert(decreases_to!(*map => map@));
                        assert(decreases_to!(map@ => map@[i as int]));
                        assert(decreases_to!(map@[i as int] => map@[i as int].1));
                    }
                    collect_skills_from_value(child, skills);
                    assert(skill_views(skills@) =~= start + skills_in_pairs(pre));
                }
            }
            assert(map@.take(map@.len() as int) =~= map@);
        },
        JsonValue::Array(items) => {
            for j in 0..items.len()
                invariant
                    *value == JsonValue::Array(*items),
                    skill_views(skills@) == start + skills_in_items(items@.take(j as int)),
            {
                proof {
                    assert(decreases_to!(*value => (*value)->Array_0));
                    assert(decreases_to!(*items => items@));
                    assert(decreases_to!(items@ => items@[j as int]));
                }
                assert(items@.take(j as int + 1).drop_last() =~= items@.take(j as int));
                collect_skills_from_value(&items[j], skills);
                assert(skill_views(skills@) =~= start + skills_in_items(items@.take(j as int + 1)));
            }
            assert(items@.take(items@.len() as int) =~= items@);
        },
        _ => {
            assert(skill_views(skills@) =~= start + Seq::<SkillView>::empty());
        },
    }
}

/// The skills in the JSON texts, in order; texts that do not parse give none.
pub fn skills_from_json_texts(texts: &Vec<String>) -> (r: Vec<SkillInfo>)
    ensures
        skill_views(r@) == skills_in_texts(crate::text::views(texts@)),
{
    let mut skills: Vec<SkillInfo> = Vec::new();
    let ghost ts = crate::text::views(texts@);
    for i in 0..texts.len()
        invariant
            ts == crate::text::views(texts@),
            skill_views(skills@) == skills_in_texts(ts.take(i as int)),
    {
        assert(ts.take(i as int + 1).drop_last() =~= ts.take(i as int));
        assert(ts.take(i as int + 1).last() == texts@[i as int]@);
        match parse_json(texts[i].as_str()) {
            Some(value) => {
                collect_skills_from_value(&value, &mut skills);
            },
            None => {
                assert(skill_views(skills@) =~= skill_views(skills@) + Seq::<SkillView>::empty());
            },
        }
    }
    assert(ts.take(ts.len() as int) =~= ts);
    skills
}

} // verus!
