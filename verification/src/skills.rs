//! Skills: their normalized text, which ones are kept, how two lists of
//! them are merged, and how the skill section is rendered.
use vstd::prelude::*;
use crate::text::{
    chars_eq, chars_of, concat, join, join_strings, lines, lines_of, lines_of_chars, string_of,
    trim, trim_slice, views,
};

verus! {

/// A skill with its name and, when it has one, its description.
pub struct SkillInfo {
    pub name: String,
    pub description: Option<String>,
}

/// The mathematical model of a [`SkillInfo`].
pub struct SkillView {
    pub name: Seq<char>,
    pub description: Option<Seq<char>>,
}

pub open spec fn opt_view(o: Option<String>) -> Option<Seq<char>> {
    match o {
        Some(s) => Some(s@),
        None => None,
    }
}

impl View for SkillInfo {
    type V = SkillView;

    open spec fn view(&self) -> SkillView {
        SkillView { name: self.name@, description: opt_view(self.description) }
    }
}

pub open spec fn skill_views(s: Seq<SkillInfo>) -> Seq<SkillView> {
    s.map_values(|k: SkillInfo| k@)
}

pub open spec fn opt_skill_view(o: Option<SkillInfo>) -> Option<SkillView> {
    match o {
        Some(k) => Some(k@),
        None => None,
    }
}

/// `s` with each `"\r\n"`, then each remaining `'\r'`, replaced by `'\n'`.
pub open spec fn unify_newlines(s: Seq<char>) -> Seq<char>
    decreases s.len(),
{
    if s.len() == 0 {
        seq![]
    } else if s[0] == '\r' && s.len() > 1 && s[1] == '\n' {
        seq!['\n'] + unify_newlines(s.subrange(2, s.len() as int))
    } else if s[0] == '\r' {
        seq!['\n'] + unify_newlines(s.drop_first())
    } else {
        seq![s[0]] + unify_newlines(s.drop_first())
    }
}

/// The non-blank lines of `s`, each trimmed, joined by `'\n'`.
pub open spec fn normalized(s: Seq<char>) -> Seq<char> {
    join(
        lines(unify_newlines(s)).map_values(|l: Seq<char>| trim(l)).filter(
            |l: Seq<char>| l.len() > 0,
        ),
        "\n"@,
    )
}

/// The skill that a name and a description give, if it is kept: a blank
/// name, `空白` and the discarded `魅力` give none, and the description is
/// dropped when it is blank, `空白` or `無し`.
pub open spec fn skill_of(name: Seq<char>, description: Seq<char>) -> Option<SkillView> {
    let n = normalized(name);
    let d = normalized(description);
    if n.len() == 0 || n == "空白"@ || n == "魅力"@ {
        None
    } else {
        Some(
            SkillView {
                name: n,
                description: if d.len() == 0 || d == "空白"@ || d == "無し"@ {
                    None
                } else {
                    Some(d)
                },
            },
        )
    }
}

/// Index of the first skill named `name`, or `-1`.
pub open spec fn name_index(s: Seq<SkillView>, name: Seq<char>) -> int
    decreases s.len(),
{
    if s.len() == 0 {
        -1
    } else {
        let i = name_index(s.drop_last(), name);
        if i >= 0 {
            i
        } else if s.last().name == name {
            s.len() - 1
        } else {
            -1
        }
    }
}

/// `acc` after one fallback skill: a new name is appended; a known name
/// only gains the fallback's description when it had none.
pub open spec fn merge_one(acc: Seq<SkillView>, f: SkillView) -> Seq<SkillView> {
    let i = name_index(acc, f.name);
    if i < 0 {
        acc.push(f)
    } else if acc[i].description is None && f.description is Some {
        acc.update(i, SkillView { name: acc[i].name, description: f.description })
    } else {
        acc
    }
}

pub open spec fn merged(acc: Seq<SkillView>, fallback: Seq<SkillView>) -> Seq<SkillView>
    decreases fallback.len(),
{
    if fallback.len() == 0 {
        acc
    } else {
        merge_one(merged(acc, fallback.drop_last()), fallback.last())
    }
}

/// The lines that render one skill: a `###` heading and its description,
/// or a list item when it has no description.
pub open spec fn skill_block(s: SkillView) -> Seq<Seq<char>> {
    match s.description {
        Some(d) => seq!["### "@ + s.name, seq![]] + lines(d) + seq![seq![]],
        None => seq!["- "@ + s.name],
    }
}

pub open spec fn skill_blocks(s: Seq<SkillView>) -> Seq<Seq<char>>
    decreases s.len(),
{
    if s.len() == 0 {
        seq![]
    } else {
        skill_blocks(s.drop_last()) + skill_block(s.last())
    }
}

/// Names and descriptions of skills as read from element attributes.
pub struct SkillAttributes {
    pub name: Option<String>,
    pub skill_type: Option<String>,
    pub description: Option<String>,
}

/// The name and description attributes of an element, as read.
pub open spec fn attribute_view(a: SkillAttributes) -> (Option<Seq<char>>, Option<Seq<char>>) {
    (opt_view(a.name), opt_view(a.description))
}

/// The skill that one element's name and description attributes give.
pub open spec fn skill_of_attributes(a: (Option<Seq<char>>, Option<Seq<char>>)) -> Option<
    SkillView,
> {
    match a.0 {
        None => None,
        Some(n) => skill_of(
            n,
            match a.1 {
                Some(d) => d,
                None => seq![],
            },
        ),
    }
}

/// The skills that elements' name and description attributes give, in order.
pub open spec fn skills_of_attributes(s: Seq<(Option<Seq<char>>, Option<Seq<char>>)>) -> Seq<
    SkillView,
> {
    s.filter_map(|a: (Option<Seq<char>>, Option<Seq<char>>)| skill_of_attributes(a))
}

// ---------------------------------------------------------------------------
// Lemmas
// ---------------------------------------------------------------------------

pub proof fn lemma_name_index(s: Seq<SkillView>, name: Seq<char>)
    ensures
        -1 <= name_index(s, name) < s.len(),
        name_index(s, name) >= 0 ==> s[name_index(s, name)].name == name,
        name_index(s, name) >= 0 ==> forall|j: int|
            0 <= j < name_index(s, name) ==> s[j].name != name,
        name_index(s, name) < 0 ==> forall|j: int| 0 <= j < s.len() ==> s[j].name != name,
    decreases s.len(),
{
    if s.len() > 0 {
        lemma_name_index(s.drop_last(), name);
        assert forall|j: int| 0 <= j < s.len() - 1 implies s[j] == s.drop_last()[j] by {}
    }
}

pub proof fn lemma_name_index_found(s: Seq<SkillView>, name: Seq<char>, k: int)
    requires
        0 <= k < s.len(),
        s[k].name == name,
        forall|j: int| 0 <= j < k ==> s[j].name != name,
    ensures
        name_index(s, name) == k,
    decreases s.len(),
{
    if k < s.len() - 1 {
        lemma_name_index_found(s.drop_last(), name, k);
    } else {
        lemma_name_index(s.drop_last(), name);
    }
}

// ---------------------------------------------------------------------------
// Executable functions
// ---------------------------------------------------------------------------

/// `s` with line breaks unified to `'\n'`.
fn unify_newline_chars(s: &[char]) -> (r: Vec<char>)
    ensures
        r@ == unify_newlines(s@),
{
    let n = s.len();
    let mut r: Vec<char> = Vec::new();
    let mut i: usize = 0;
    assert(s@.subrange(0, n as int) =~= s@);
    while i < n
        invariant
            n == s@.len(),
            i <= n,
            unify_newlines(s@) == r@ + unify_newlines(s@.subrange(i as int, n as int)),
        decreases n - i,
    {
        let ghost rest = s@.subrange(i as int, n as int);
        if s[i] == '\r' && i + 1 < n && s[i + 1] == '\n' {
            assert(rest.subrange(2, rest.len() as int) =~= s@.subrange(i + 2, n as int));
            assert(r@.push('\n') + unify_newlines(s@.subrange(i + 2, n as int)) =~= r@ + (
            seq!['\n'] + unify_newlines(s@.subrange(i + 2, n as int))));
            r.push('\n');
            i = i + 2;
        } else {
            assert(rest.drop_first() =~= s@.subrange(i + 1, n as int));
            let c = if s[i] == '\r' {
                '\n'
            } else {
                s[i]
            };
            assert(r@.push(c) + unify_newlines(s@.subrange(i + 1, n as int)) =~= r@ + (seq![c]
                + unify_newlines(s@.subrange(i + 1, n as int))));
            r.push(c);
            i = i + 1;
        }
    }
    assert(s@.subrange(n as int, n as int) =~= Seq::<char>::empty());
    assert(r@ + Seq::<char>::empty() =~= r@);
    r
}

/// Unifies line breaks, trims every line, drops the blank ones, and joins
/// the rest with `'\n'`.
pub fn normalize_text(value: &str) -> (r: String)
    ensures
        r@ == normalized(value@),
{
    let v = chars_of(value);
    let u = unify_newline_chars(v.as_slice());
    let all = lines_of_chars(u.as_slice());
    let ghost trimmed = lines(unify_newlines(value@)).map_values(|l: Seq<char>| trim(l));
    let ghost keep = |l: Seq<char>| l.len() > 0;
    let mut kept: Vec<String> = Vec::new();
    for i in 0..all.len()
        invariant
            views(all@) == lines(unify_newlines(value@)),
            trimmed == lines(unify_newlines(value@)).map_values(|l: Seq<char>| trim(l)),
            keep == (|l: Seq<char>| l.len() > 0),
            views(kept@) == trimmed.take(i as int).filter(keep),
    {
        proof {
            reveal_with_fuel(Seq::filter, 1);
            assert(trimmed.take(i as int + 1).drop_last() =~= trimmed.take(i as int));
        }
        let lv = chars_of(all[i].as_str());
        let t = trim_slice(lv.as_slice());
        assert(t@ == trimmed[i as int]);
        if t.len() > 0 {
            let s = string_of(t);
            assert(views(kept@.push(s)) =~= views(kept@).push(s@));
            kept.push(s);
        }
    }
    assert(trimmed.take(trimmed.len() as int) =~= trimmed);
    join_strings(kept.as_slice(), "\n")
}

fn lit_eq_str(s: &str, lit: &str) -> (r: bool)
    ensures
        r == (s@ == lit@),
{
    let a = chars_of(s);
    let b = chars_of(lit);
    chars_eq(a.as_slice(), b.as_slice())
}

/// The skill that a name and a description give, if it is kept. The skill
/// type plays no part.
pub fn make_skill_info(name: &str, _skill_type: &str, description: &str) -> (r: Option<SkillInfo>)
    ensures
        opt_skill_view(r) == skill_of(name@, description@),
{
    let name = normalize_text(name);
    let description = normalize_text(description);
    if name.as_str().is_empty() || lit_eq_str(name.as_str(), "空白") || lit_eq_str(
        name.as_str(),
        "魅力",
    ) {
        return None;
    }
    let description = if description.as_str().is_empty() || lit_eq_str(
        description.as_str(),
        "空白",
    ) || lit_eq_str(description.as_str(), "無し") {
        None
    } else {
        Some(description)
    };
    Some(SkillInfo { name, description })
}

fn clone_skill(s: &SkillInfo) -> (r: SkillInfo)
    ensures
        r@ == s@,
{
    let description = match &s.description {
        Some(d) => Some(d.clone()),
        None => None,
    };
    SkillInfo { name: s.name.clone(), description }
}

/// The index of the first skill named `name`.
fn find_skill(skills: &Vec<SkillInfo>, name: &String) -> (r: Option<usize>)
    ensures
        match r {
            Some(j) => j < skills@.len() && j as int == name_index(skill_views(skills@), name@),
            None => name_index(skill_views(skills@), name@) == -1,
        },
{
    let ghost acc = skill_views(skills@);
    for j in 0..skills.len()
        invariant
            acc == skill_views(skills@),
            forall|i: int| 0 <= i < j ==> acc[i].name != name@,
    {
        if skills[j].name == *name {
            proof {
                lemma_name_index_found(acc, name@, j as int);
            }
            return Some(j);
        }
    }
    proof {
        lemma_name_index(acc, name@);
        if name_index(acc, name@) >= 0 {
            assert(acc[name_index(acc, name@)].name == name@);
        }
    }
    None
}

/// Adds the skills of `fallback` that `skills` lacks, and fills in missing
/// descriptions of skills that both lists name.
pub fn merge_missing_skills(skills: &mut Vec<SkillInfo>, fallback: Vec<SkillInfo>)
    ensures
        skill_views(final(skills)@) == merged(skill_views(old(skills)@), skill_views(fallback@)),
{
    let ghost start = skill_views(skills@);
    let ghost fb = skill_views(fallback@);
    for k in 0..fallback.len()
        invariant
            fb == skill_views(fallback@),
            skill_views(skills@) == merged(start, fb.take(k as int)),
    {
        let f = &fallback[k];
        let ghost acc = skill_views(skills@);
        assert(fb.take(k as int + 1).drop_last() =~= fb.take(k as int));
        assert(fb.take(k as int + 1).last() == f@);
        let found = find_skill(skills, &f.name);
        if let Some(j) = found {
            if skills[j].description.is_none() && f.description.is_some() {
                let updated = SkillInfo {
                    name: skills[j].name.clone(),
                    description: match &f.description {
                        Some(d) => Some(d.clone()),
                        None => None,
                    },
                };
                skills.set(j, updated);
                assert(skill_views(skills@) =~= acc.update(
                    j as int,
                    SkillView { name: acc[j as int].name, description: f@.description },
                ));
            }
        } else {
            let c = clone_skill(f);
            skills.push(c);
            assert(skill_views(skills@) =~= acc.push(f@));
        }
    }
    assert(fb.take(fallback@.len() as int) =~= fb);
}

/// The skill section: its heading, then for each skill a `###` heading with
/// its description or a `- name` item, without blank lines at either end.
pub fn render_skill_section(heading: String, skills: &[SkillInfo]) -> (r: Vec<String>)
    ensures
        views(r@) == crate::markdown::trim_blank_lines(
            seq![heading@, seq![]] + skill_blocks(skill_views(skills@)),
        ),
{
    let ghost h = heading@;
    let mut out: Vec<String> = Vec::new();
    out.push(heading);
    out.push(String::new());
    assert(views(out@) =~= seq![h, seq![]]);
    assert(skill_views(skills@.take(0)) =~= Seq::<SkillView>::empty());
    for i in 0..skills.len()
        invariant
            views(out@) == seq![h, seq![]] + skill_blocks(skill_views(skills@.take(i as int))),
    {
        let s = &skills[i];
        let ghost before = views(out@);
        proof {
            assert(skill_views(skills@.take(i as int + 1)).drop_last() =~= skill_views(
                skills@.take(i as int),
            ));
            assert(skill_views(skills@.take(i as int + 1)).last() == s@);
        }
        match &s.description {
            Some(d) => {
                let head = concat("### ", s.name.as_str());
                out.push(head);
                out.push(String::new());
                let ls = lines_of(d.as_str());
                let ghost mid = views(out@);
                assert(mid =~= before + seq!["### "@ + s@.name, Seq::<char>::empty()]);
                for j in 0..ls.len()
                    invariant
                        views(out@) == mid + views(ls@.take(j as int)),
                {
                    assert(views(ls@.take(j as int + 1)) =~= views(ls@.take(j as int)).push(
                        ls@[j as int]@,
                    ));
                    let c = ls[j].clone();
                    assert(views(out@.push(c)) =~= views(out@).push(ls@[j as int]@));
                    out.push(c);
                }
                assert(ls@.take(ls@.len() as int) =~= ls@);
                let ghost body = views(out@);
                out.push(String::new());
                assert(s@.description == Some(d@));
                assert(body =~= mid + lines(d@));
                assert(views(out@) =~= body.push(Seq::<char>::empty()));
                assert(views(out@) =~= before + skill_block(s@));
            },
            None => {
                out.push(concat("- ", s.name.as_str()));
                assert(views(out@) =~= before + skill_block(s@));
            },
        }
    }
    assert(skills@.take(skills@.len() as int) =~= skills@);
    crate::markdown::trim_outer_blank_lines(out)
}

/// The skills that a list of elements' attributes give, in order.
pub fn skills_from_attributes(entries: &[SkillAttributes]) -> (r: Vec<SkillInfo>)
    ensures
        skill_views(r@) == skills_of_attributes(
            entries@.map_values(|a: SkillAttributes| attribute_view(a)),
        ),
{
    let ghost all = entries@.map_values(|a: SkillAttributes| attribute_view(a));
    let mut r: Vec<SkillInfo> = Vec::new();
    for i in 0..entries.len()
        invariant
            all == entries@.map_values(|a: SkillAttributes| attribute_view(a)),
            skill_views(r@) == skills_of_attributes(all.take(i as int)),
    {
        let e = &entries[i];
        assert(all.take(i as int + 1).drop_last() =~= all.take(i as int));
        assert(all.take(i as int + 1).last() == attribute_view(*e));
        if let Some(name) = &e.name {
            let empty = String::new();
            let description = match &e.description {
                Some(d) => d,
                None => &empty,
            };
            let kind = match &e.skill_type {
                Some(t) => t.as_str(),
                None => "",
            };
            if let Some(skill) = make_skill_info(name.as_str(), kind, description.as_str()) {
                assert(skill_views(r@.push(skill)) =~= skill_views(r@) + seq![skill@]);
                r.push(skill);
            }
        }
    }
    assert(all.take(all.len() as int) =~= all);
    r
}

} // verus!
