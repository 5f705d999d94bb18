//! The character sheet: what each `##` section becomes, and the whole
//! clean-up of the rendered Markdown.
use vstd::prelude::*;
use crate::line_rules::{
    detail_charm_heading, detail_valid_heading, empty_item, heading_title,
    is_character_detail_charm_heading, is_character_detail_valid_heading, noise_line,
    should_skip_noise_line, title_of,
};
use crate::markdown::{
    body_is_empty, filter_empty_items, filter_preamble, initial_line_filter, initial_lines,
    normalize_blank_lines, normalized_text, section_is_empty, section_views, split_sections,
    split_spec, trim_blank_lines, trim_outer_blank_lines, Section, SectionView,
};
use crate::skills::{render_skill_section, skill_blocks, skill_views, SkillInfo, SkillView};
use crate::status::{process_status_section, status_section};
use crate::text::{
    chars_eq, chars_of, chars_starts_with, concat, starts_with, string_of, trim,
    trim_start_class, trim_start_slice, trim_slice, views, CharClass,
};

verus! {

/// One line of the character detail section read: `魅力` headings start a
/// part that is skipped, known sub-headings become `###` headings and end
/// it (one already written as a `###` heading stays as it is), and noise is
/// dropped.
pub open spec fn detail_step(st: (Seq<Seq<char>>, bool), line: Seq<char>) -> (
    Seq<Seq<char>>,
    bool,
) {
    let (body, skipping) = st;
    let t = trim(line);
    if detail_charm_heading(t) {
        (body, true)
    } else if detail_valid_heading(t) {
        (
            body.push(
                if starts_with(t, "### "@) {
                    line
                } else {
                    "### "@ + title_of(t)
                },
            ),
            false,
        )
    } else if skipping || noise_line(t) {
        (body, skipping)
    } else {
        (body.push(line), skipping)
    }
}

pub open spec fn detail_fold(ls: Seq<Seq<char>>) -> (Seq<Seq<char>>, bool)
    decreases ls.len(),
{
    if ls.len() == 0 {
        (seq![], false)
    } else {
        detail_step(detail_fold(ls.drop_last()), ls.last())
    }
}

/// A `###` heading, possibly indented.
pub open spec fn h3_line(l: Seq<char>) -> bool {
    starts_with(trim_start_class(l, CharClass::Whitespace), "### "@)
}

/// `out` with a pending `###` part appended, unless the part is empty; a
/// blank line separates it from what comes before.
pub open spec fn flush_h3(
    out: Seq<Seq<char>>,
    heading: Option<Seq<char>>,
    body: Seq<Seq<char>>,
) -> Seq<Seq<char>> {
    match heading {
        None => out,
        Some(h) => {
            let cleaned = trim_blank_lines(body);
            if body_is_empty(cleaned) {
                out
            } else {
                let sep = if out.len() > 0 && out.last().len() != 0 {
                    out.push(seq![])
                } else {
                    out
                };
                sep.push(h).push(seq![]) + cleaned
            }
        },
    }
}

pub open spec fn h3_fold(ls: Seq<Seq<char>>) -> (
    Seq<Seq<char>>,
    Option<Seq<char>>,
    Seq<Seq<char>>,
)
    decreases ls.len(),
{
    if ls.len() == 0 {
        (seq![], None, seq![])
    } else {
        let (out, h, body) = h3_fold(ls.drop_last());
        let l = ls.last();
        if h3_line(l) {
            (flush_h3(out, h, body), Some(l), seq![])
        } else if h is Some {
            (out, h, body.push(l))
        } else {
            (out.push(l), h, body)
        }
    }
}

/// `ls` without the `###` parts that hold no content.
pub open spec fn without_empty_h3(ls: Seq<Seq<char>>) -> Seq<Seq<char>> {
    let (out, h, body) = h3_fold(ls);
    flush_h3(out, h, body)
}

/// What the character detail section becomes.
pub open spec fn detail_section(s: SectionView) -> Option<Seq<Seq<char>>> {
    let body = without_empty_h3(detail_fold(s.body).0);
    if body_is_empty(body) {
        None
    } else {
        Some(seq![s.heading, seq![]] + trim_blank_lines(body))
    }
}

/// Sections whose items are filtered for emptiness.
pub open spec fn item_section_title(t: Seq<char>) -> bool {
    t == "スキル"@ || t == "性格キーワード"@ || t == "思い出"@
}

/// What a `##` section becomes in the output, or `None` when it is dropped.
pub open spec fn section_output(s: SectionView, skills: Seq<SkillView>) -> Option<
    Seq<Seq<char>>,
> {
    let title = title_of(s.heading);
    if title == "アイコン画像"@ || title == "魅力"@ {
        None
    } else if title == "ステータス"@ {
        match status_section(s.body) {
            Some(b) => Some(seq![s.heading, seq![]] + b),
            None => None,
        }
    } else if title == "キャラクター詳細"@ {
        detail_section(s)
    } else if title == "スキル"@ && skills.len() > 0 {
        Some(trim_blank_lines(seq![s.heading, seq![]] + skill_blocks(skills)))
    } else {
        let body = if item_section_title(title) {
            s.body.filter(|l: Seq<char>| !empty_item(l) && !noise_line(l))
        } else {
            s.body.filter(|l: Seq<char>| !noise_line(l))
        };
        if body_is_empty(body) {
            None
        } else {
            Some(seq![s.heading, seq![]] + trim_blank_lines(body))
        }
    }
}

/// `out` followed by a section's lines, a blank line between them.
pub open spec fn append_section(out: Seq<Seq<char>>, lines: Seq<Seq<char>>) -> Seq<Seq<char>> {
    let sep = if out.len() > 0 && out.last().len() != 0 {
        out.push(seq![])
    } else {
        out
    };
    sep + lines
}

pub open spec fn sections_output(
    out: Seq<Seq<char>>,
    secs: Seq<SectionView>,
    skills: Seq<SkillView>,
) -> Seq<Seq<char>>
    decreases secs.len(),
{
    if secs.len() == 0 {
        out
    } else {
        let pre = sections_output(out, secs.drop_last(), skills);
        match section_output(secs.last(), skills) {
            Some(l) => append_section(pre, l),
            None => pre,
        }
    }
}

/// The whole clean-up: the preamble without noise, then each kept section.
pub open spec fn cleaned_markdown(markdown: Seq<char>, skills: Seq<SkillView>) -> Seq<char> {
    normalized_text(cleaned_lines(markdown, skills))
}

/// The lines of the clean-up before blank lines are normalized: the
/// preamble without noise, then each kept section.
pub open spec fn cleaned_lines(markdown: Seq<char>, skills: Seq<SkillView>) -> Seq<Seq<char>> {
    let (pre, secs) = split_spec(initial_lines(markdown));
    sections_output(pre.filter(|l: Seq<char>| !noise_line(l)), secs, skills)
}

pub open spec fn opt_lines_view(o: Option<Vec<String>>) -> Option<Seq<Seq<char>>> {
    match o {
        Some(v) => Some(views(v@)),
        None => None,
    }
}

// ---------------------------------------------------------------------------
// Executable functions
// ---------------------------------------------------------------------------

fn append_lines(out: &mut Vec<String>, more: Vec<String>)
    ensures
        views(final(out)@) == views(old(out)@) + views(more@),
{
    let mut more = more;
    let ghost a = views(out@);
    let ghost b = views(more@);
    out.append(&mut more);
    assert(views(out@) =~= a + b);
}

/// Appends a pending `###` part to `output` unless it is empty. With a
/// pending heading the part's body is taken, leaving `body` empty; without
/// one nothing changes.
pub fn flush_h3_section(output: &mut Vec<String>, heading: Option<String>, body: &mut Vec<String>)
    ensures
        views(final(output)@) == flush_h3(
            views(old(output)@),
            crate::skills::opt_view(heading),
            views(old(body)@),
        ),
        heading is None ==> final(body)@ == old(body)@,
        heading is Some ==> final(body)@.len() == 0,
{
    let heading = match heading {
        Some(h) => h,
        None => {
            return;
        },
    };
    let mut taken: Vec<String> = Vec::new();
    std::mem::swap(&mut taken, body);
    let cleaned = trim_outer_blank_lines(taken);
    if section_is_empty(cleaned.as_slice()) {
        return;
    }
    let ghost o = views(output@);
    if output.len() > 0 && !output[output.len() - 1].as_str().is_empty() {
        output.push(String::new());
    }
    let ghost sep = views(output@);
    assert(sep == (if o.len() > 0 && o.last().len() != 0 {
        o.push(seq![])
    } else {
        o
    })) by {
        if o.len() > 0 && o.last().len() != 0 {
            assert(sep =~= o.push(seq![]));
        }
    }
    let ghost h = heading@;
    output.push(heading);
    output.push(String::new());
    assert(views(output@) =~= sep.push(h).push(seq![]));
    append_lines(output, cleaned);
}

/// Removes the `###` parts whose body holds no content.
pub fn remove_empty_h3_sections(lines: Vec<String>) -> (r: Vec<String>)
    ensures
        views(r@) == without_empty_h3(views(lines@)),
{
    let mut output: Vec<String> = Vec::new();
    let mut current_heading: Option<String> = None;
    let mut current_body: Vec<String> = Vec::new();
    for i in 0..lines.len()
        invariant
            h3_fold(views(lines@.take(i as int))) == (
                views(output@),
                crate::skills::opt_view(current_heading),
                views(current_body@),
            ),
            current_heading is None ==> current_body@.len() == 0,
    {
        assert(views(lines@.take(i as int + 1)).drop_last() =~= views(lines@.take(i as int)));
        let line = lines[i].clone();
        let v = chars_of(line.as_str());
        let t = trim_start_slice(v.as_slice(), CharClass::Whitespace);
        let h3 = chars_of("### ");
        if chars_starts_with(t, h3.as_slice()) {
            let h = current_heading;
            flush_h3_section(&mut output, h, &mut current_body);
            assert(views(current_body@) =~= Seq::<Seq<char>>::empty());
            current_heading = Some(line);
        } else if current_heading.is_some() {
            let ghost b = views(current_body@);
            current_body.push(line);
            assert(views(current_body@) =~= b.push(lines@[i as int]@));
        } else {
            let ghost o = views(output@);
            output.push(line);
            assert(views(output@) =~= o.push(lines@[i as int]@));
        }
    }
    assert(lines@.take(lines@.len() as int) =~= lines@);
    flush_h3_section(&mut output, current_heading, &mut current_body);
    output
}

/// The character detail section: known sub-headings as `###` headings, the
/// `魅力` part and noise removed, empty parts dropped; `None` when nothing is
/// left.
pub fn process_character_detail_section(section: Section) -> (r: Option<Vec<String>>)
    ensures
        opt_lines_view(r) == detail_section(section@),
{
    let ghost sv = section@;
    let Section { heading, body: lines } = section;
    let mut body: Vec<String> = Vec::new();
    let mut skipping_charm = false;
    for i in 0..lines.len()
        invariant
            views(lines@) == sv.body,
            detail_fold(views(lines@.take(i as int))) == (views(body@), skipping_charm),
    {
        assert(views(lines@.take(i as int + 1)).drop_last() =~= views(lines@.take(i as int)));
        let line = lines[i].clone();
        let v = chars_of(line.as_str());
        let trimmed = string_of(trim_slice(v.as_slice()));
        if is_character_detail_charm_heading(trimmed.as_str()) {
            skipping_charm = true;
        } else if is_character_detail_valid_heading(trimmed.as_str()) {
            skipping_charm = false;
            let tv = chars_of(trimmed.as_str());
            let h3 = chars_of("### ");
            let ghost b = views(body@);
            if chars_starts_with(tv.as_slice(), h3.as_slice()) {
                body.push(line);
            } else {
                let title = heading_title(trimmed.as_str());
                body.push(concat("### ", title.as_str()));
            }
            assert(views(body@) =~= b.push(views(body@).last()));
        } else if skipping_charm || should_skip_noise_line(trimmed.as_str()) {
        } else {
            let ghost b = views(body@);
            body.push(line);
            assert(views(body@) =~= b.push(lines@[i as int]@));
        }
    }
    assert(lines@.take(lines@.len() as int) =~= lines@);
    let body = remove_empty_h3_sections(body);
    if section_is_empty(body.as_slice()) {
        return None;
    }
    let mut out: Vec<String> = Vec::new();
    out.push(heading);
    out.push(String::new());
    let ghost o = views(out@);
    assert(o =~= seq![sv.heading, seq![]]);
    append_lines(&mut out, trim_outer_blank_lines(body));
    Some(out)
}

fn title_is(title: &[char], lit: &str) -> (r: bool)
    ensures
        r == (title@ == lit@),
{
    let l = chars_of(lit);
    chars_eq(title, l.as_slice())
}

/// What one `##` section becomes in the output; `None` when it is dropped.
pub fn process_section(section: Section, skills: &[SkillInfo]) -> (r: Option<Vec<String>>)
    ensures
        opt_lines_view(r) == section_output(section@, skill_views(skills@)),
{
    let ghost sv = section@;
    let title_string = heading_title(section.heading.as_str());
    let tv = chars_of(title_string.as_str());
    let title = tv.as_slice();
    if title_is(title, "アイコン画像") || title_is(title, "魅力") {
        return None;
    }
    if title_is(title, "ステータス") {
        return match process_status_section(section.body.as_slice()) {
            Some(body) => {
                let mut lines: Vec<String> = Vec::new();
                lines.push(section.heading);
                lines.push(String::new());
                assert(views(lines@) =~= seq![sv.heading, seq![]]);
                append_lines(&mut lines, body);
                Some(lines)
            },
            None => None,
        };
    }
    if title_is(title, "キャラクター詳細") {
        return process_character_detail_section(section);
    }
    if title_is(title, "スキル") && skills.len() > 0 {
        return Some(render_skill_section(section.heading, skills));
    }
    let body = if title_is(title, "スキル") || title_is(title, "性格キーワード") || title_is(
        title,
        "思い出",
    ) {
        filter_empty_items(section.body.as_slice())
    } else {
        filter_preamble(section.body.as_slice())
    };
    if section_is_empty(body.as_slice()) {
        return None;
    }
    let mut lines: Vec<String> = Vec::new();
    lines.push(section.heading);
    lines.push(String::new());
    assert(views(lines@) =~= seq![sv.heading, seq![]]);
    append_lines(&mut lines, trim_outer_blank_lines(body));
    Some(lines)
}

/// Cleans up the Markdown rendering of a character sheet: drops images,
/// footers and noise, reshapes the known sections, renders the skills, and
/// collapses blank lines.
pub fn cleanup_markdown(markdown: &str, skills: &[SkillInfo]) -> (r: String)
    ensures
        r@ == cleaned_markdown(markdown@, skill_views(skills@)),
{
    let lines = initial_line_filter(markdown);
    let (preamble, sections) = split_sections(lines.as_slice());
    let ghost secs = section_views(sections@);
    let ghost sk = skill_views(skills@);
    let mut output = filter_preamble(preamble.as_slice());
    let ghost start = views(output@);
    let mut sections = sections;
    let n = sections.len();
    assert(secs.take(0) =~= Seq::<SectionView>::empty());
    assert(secs.subrange(0, n as int) =~= secs);
    for i in 0..n
        invariant
            n == secs.len(),
            section_views(sections@) == secs.subrange(i as int, n as int),
            sections@.len() == n - i,
            views(output@) == sections_output(start, secs.take(i as int), sk),
            sk == skill_views(skills@),
    {
        assert(section_views(sections@)[0] == sections@[0]@);
        let ghost before = sections@;
        let section = sections.remove(0);
        assert(sections@ =~= before.subrange(1, before.len() as int));
        assert forall|j: int| 0 <= j < sections@.len() implies section_views(sections@)[j]
            == secs.subrange(i + 1, n as int)[j] by {
            assert(sections@[j] == before[j + 1]);
            assert(section_views(before)[j + 1] == secs.subrange(i as int, n as int)[j + 1]);
        }
        assert(section_views(sections@) =~= secs.subrange(i + 1, n as int));
        assert(section@ == secs[i as int]);
        assert(secs.take(i as int + 1).drop_last() =~= secs.take(i as int));
        if let Some(section_lines) = process_section(section, skills) {
            let ghost o = views(output@);
            if output.len() > 0 && !output[output.len() - 1].as_str().is_empty() {
                output.push(String::new());
            }
            assert(views(output@) == (if o.len() > 0 && o.last().len() != 0 {
                o.push(seq![])
            } else {
                o
            })) by {
                if o.len() > 0 && o.last().len() != 0 {
                    assert(views(output@) =~= o.push(seq![]));
                }
            }
            append_lines(&mut output, section_lines);
        }
    }
    assert(secs.take(n as int) =~= secs);
    normalize_blank_lines(output.as_slice())
}

} // verus!
