//! Line-list operations on Markdown: splitting into `##` sections, dropping
//! noise, trimming and collapsing blank lines.
use vstd::prelude::*;
use crate::line_rules::{
    empty_item, footer_line, h2_heading, image_line, is_empty_item, is_footer_line, is_h2_heading,
    is_image_line, is_table_separator, noise_line, should_skip_noise_line, table_separator,
};
use crate::text::{
    chars_of, is_blank, is_blank_str, join, join_strings, lines, lines_of, string_of, trim,
    trim_end, trim_end_slice, trim_slice, views, CharClass,
};

verus! {

/// A `##` heading and the lines under it, up to the next `##` heading.
pub struct Section {
    pub heading: String,
    pub body: Vec<String>,
}

/// The mathematical model of a [`Section`].
#[verifier::ext_equal]
pub struct SectionView {
    pub heading: Seq<char>,
    pub body: Seq<Seq<char>>,
}

impl View for Section {
    type V = SectionView;

    open spec fn view(&self) -> SectionView {
        SectionView { heading: self.heading@, body: views(self.body@) }
    }
}

pub open spec fn section_views(s: Seq<Section>) -> Seq<SectionView> {
    s.map_values(|x: Section| x@)
}

/// The lines a section was made from: its heading, then its body.
pub open spec fn section_lines(s: SectionView) -> Seq<Seq<char>> {
    seq![s.heading] + s.body
}

pub open spec fn flatten_sections(s: Seq<SectionView>) -> Seq<Seq<char>>
    decreases s.len(),
{
    if s.len() == 0 {
        seq![]
    } else {
        flatten_sections(s.drop_last()) + section_lines(s.last())
    }
}

/// Reading lines in order: the preamble so far, the closed sections, and
/// the section still open.
pub open spec fn split_fold(ls: Seq<Seq<char>>) -> (
    Seq<Seq<char>>,
    Seq<SectionView>,
    Option<SectionView>,
)
    decreases ls.len(),
{
    if ls.len() == 0 {
        (seq![], seq![], None)
    } else {
        let (p, s, c) = split_fold(ls.drop_last());
        let l = ls.last();
        if h2_heading(l) {
            (
                p,
                match c {
                    Some(x) => s.push(x),
                    None => s,
                },
                Some(SectionView { heading: l, body: seq![] }),
            )
        } else {
            match c {
                Some(x) => (p, s, Some(SectionView { heading: x.heading, body: x.body.push(l) })),
                None => (p.push(l), s, None),
            }
        }
    }
}

/// The preamble and the sections of `ls`.
pub open spec fn split_spec(ls: Seq<Seq<char>>) -> (Seq<Seq<char>>, Seq<SectionView>) {
    let (p, s, c) = split_fold(ls);
    (
        p,
        match c {
            Some(x) => s.push(x),
            None => s,
        },
    )
}

/// `s` without its leading blank lines.
pub open spec fn drop_leading_blank(s: Seq<Seq<char>>) -> Seq<Seq<char>>
    decreases s.len(),
{
    if s.len() > 0 && is_blank(s[0]) {
        drop_leading_blank(s.drop_first())
    } else {
        s
    }
}

/// `s` without its trailing blank lines.
pub open spec fn drop_trailing_blank(s: Seq<Seq<char>>) -> Seq<Seq<char>>
    decreases s.len(),
{
    if s.len() > 0 && is_blank(s.last()) {
        drop_trailing_blank(s.drop_last())
    } else {
        s
    }
}

/// `s` without blank lines at either end.
pub open spec fn trim_blank_lines(s: Seq<Seq<char>>) -> Seq<Seq<char>> {
    drop_trailing_blank(drop_leading_blank(s))
}

/// A line that counts as no content: blank, an empty item, or a table rule.
pub open spec fn placeholder_line(s: Seq<char>) -> bool {
    let t = trim(s);
    t.len() == 0 || empty_item(t) || table_separator(t)
}

/// A body with nothing but placeholder lines.
pub open spec fn body_is_empty(s: Seq<Seq<char>>) -> bool {
    forall|i: int| 0 <= i < s.len() ==> placeholder_line(s[i])
}

/// The lines of the rendered Markdown that survive the first pass: right
/// trimmed, without images and without footer lines.
pub open spec fn initial_lines(markdown: Seq<char>) -> Seq<Seq<char>> {
    lines(markdown).map_values(|l: Seq<char>| trim_end(l)).filter(
        |l: Seq<char>| !image_line(l) && !footer_line(l),
    )
}

/// Blank runs collapsed to one empty line, lines right trimmed; the flag
/// tells whether the last line read was blank.
pub open spec fn collapse_blank(s: Seq<Seq<char>>) -> (Seq<Seq<char>>, bool)
    decreases s.len(),
{
    if s.len() == 0 {
        (seq![], false)
    } else {
        let (c, previous_blank) = collapse_blank(s.drop_last());
        let t = trim_end(s.last());
        if t.len() == 0 {
            (
                if !previous_blank && c.len() > 0 {
                    c.push(seq![])
                } else {
                    c
                },
                true,
            )
        } else {
            (c.push(t), false)
        }
    }
}

/// `s` without its trailing empty lines.
pub open spec fn drop_trailing_empty(s: Seq<Seq<char>>) -> Seq<Seq<char>>
    decreases s.len(),
{
    if s.len() > 0 && s.last().len() == 0 {
        drop_trailing_empty(s.drop_last())
    } else {
        s
    }
}

/// The output lines: blank runs collapsed, no blank line at either end.
pub open spec fn normalized_lines(s: Seq<Seq<char>>) -> Seq<Seq<char>> {
    drop_trailing_empty(collapse_blank(s).0)
}

/// The output text: the normalized lines, each ended by a line feed.
pub open spec fn normalized_text(s: Seq<Seq<char>>) -> Seq<char> {
    let c = normalized_lines(s);
    if c.len() == 0 {
        seq![]
    } else {
        join(c, "\n"@) + "\n"@
    }
}

// ---------------------------------------------------------------------------
// Executable functions
// ---------------------------------------------------------------------------

/// Removes blank lines at the start and at the end of `lines`.
pub fn trim_outer_blank_lines(lines: Vec<String>) -> (r: Vec<String>)
    ensures
        views(r@) == trim_blank_lines(views(lines@)),
{
    let mut lines = lines;
    let ghost original = views(lines@);
    while lines.len() > 0 && is_blank_str(lines[0].as_str())
        invariant
            drop_leading_blank(original) == drop_leading_blank(views(lines@)),
        decreases lines.len(),
    {
        proof {
            let v = views(lines@);
            assert(v.drop_first() =~= views(lines@.remove(0)));
        }
        lines.remove(0);
    }
    let ghost front = views(lines@);
    assert(drop_leading_blank(front) == front);
    while lines.len() > 0 && is_blank_str(lines[lines.len() - 1].as_str())
        invariant
            drop_trailing_blank(front) == drop_trailing_blank(views(lines@)),
        decreases lines.len(),
    {
        proof {
            let v = views(lines@);
            assert(v.drop_last() =~= views(lines@.drop_last()));
        }
        lines.pop();
    }
    lines
}

/// Whether a section body holds no content at all.
pub fn section_is_empty(lines: &[String]) -> (r: bool)
    ensures
        r == body_is_empty(views(lines@)),
{
    for i in 0..lines.len()
        invariant
            forall|j: int| 0 <= j < i ==> placeholder_line(views(lines@)[j]),
    {
        let v = chars_of(lines[i].as_str());
        let t = trim_slice(v.as_slice());
        let ts = string_of(t);
        let keep = t.len() == 0 || is_empty_item(ts.as_str()) || is_table_separator(ts.as_str());
        if !keep {
            assert(!placeholder_line(views(lines@)[i as int]));
            return false;
        }
    }
    true
}

/// The lines of an item list without empty items and noise.
pub fn filter_empty_items(lines: &[String]) -> (r: Vec<String>)
    ensures
        views(r@) == views(lines@).filter(|l: Seq<char>| !empty_item(l) && !noise_line(l)),
{
    let ghost keep = |l: Seq<char>| !empty_item(l) && !noise_line(l);
    let mut r: Vec<String> = Vec::new();
    for i in 0..lines.len()
        invariant
            keep == (|l: Seq<char>| !empty_item(l) && !noise_line(l)),
            views(r@) == views(lines@.take(i as int)).filter(keep),
    {
        proof {
            reveal_with_fuel(Seq::filter, 1);
            assert(views(lines@.take(i as int + 1)).drop_last() =~= views(lines@.take(i as int)));
        }
        let line = &lines[i];
        if !is_empty_item(line.as_str()) && !should_skip_noise_line(line.as_str()) {
            let c = line.clone();
            assert(views(r@.push(c)) =~= views(r@).push(line@));
            r.push(c);
        }
    }
    assert(lines@.take(lines@.len() as int) =~= lines@);
    r
}

/// The lines before the first section, without noise.
pub fn filter_preamble(lines: &[String]) -> (r: Vec<String>)
    ensures
        views(r@) == views(lines@).filter(|l: Seq<char>| !noise_line(l)),
{
    let ghost keep = |l: Seq<char>| !noise_line(l);
    let mut r: Vec<String> = Vec::new();
    for i in 0..lines.len()
        invariant
            keep == (|l: Seq<char>| !noise_line(l)),
            views(r@) == views(lines@.take(i as int)).filter(keep),
    {
        proof {
            reveal_with_fuel(Seq::filter, 1);
            assert(views(lines@.take(i as int + 1)).drop_last() =~= views(lines@.take(i as int)));
        }
        let line = &lines[i];
        if !should_skip_noise_line(line.as_str()) {
            let c = line.clone();
            assert(views(r@.push(c)) =~= views(r@).push(line@));
            r.push(c);
        }
    }
    assert(lines@.take(lines@.len() as int) =~= lines@);
    r
}

/// Splits the rendered Markdown into right-trimmed lines, dropping images
/// and footer lines.
pub fn initial_line_filter(markdown: &str) -> (r: Vec<String>)
    ensures
        views(r@) == initial_lines(markdown@),
{
    let all = lines_of(markdown);
    let ghost trimmed = lines(markdown@).map_values(|l: Seq<char>| trim_end(l));
    let ghost keep = |l: Seq<char>| !image_line(l) && !footer_line(l);
    let mut r: Vec<String> = Vec::new();
    for i in 0..all.len()
        invariant
            views(all@) == lines(markdown@),
            trimmed == lines(markdown@).map_values(|l: Seq<char>| trim_end(l)),
            keep == (|l: Seq<char>| !image_line(l) && !footer_line(l)),
            views(r@) == trimmed.take(i as int).filter(keep),
    {
        proof {
            reveal_with_fuel(Seq::filter, 1);
            assert(trimmed.take(i as int + 1).drop_last() =~= trimmed.take(i as int));
        }
        let v = chars_of(all[i].as_str());
        let t = string_of(trim_end_slice(v.as_slice(), CharClass::Whitespace));
        assert(t@ == trimmed[i as int]);
        if !is_image_line(t.as_str()) && !is_footer_line(t.as_str()) {
            assert(views(r@.push(t)) =~= views(r@).push(t@));
            r.push(t);
        }
    }
    assert(trimmed.take(trimmed.len() as int) =~= trimmed);
    r
}

/// Splits lines into the preamble before the first `##` heading and the
/// sections that each `##` heading opens.
pub fn split_sections(lines: &[String]) -> (r: (Vec<String>, Vec<Section>))
    ensures
        (views(r.0@), section_views(r.1@)) == split_spec(views(lines@)),
        views(r.0@) + flatten_sections(section_views(r.1@)) == views(lines@),
        forall|i: int| 0 <= i < r.0@.len() ==> !h2_heading(#[trigger] r.0@[i]@),
        forall|k: int| 0 <= k < r.1@.len() ==> h2_heading(#[trigger] r.1@[k]@.heading),
        forall|k: int, j: int|
            0 <= k < r.1@.len() && 0 <= j < r.1@[k]@.body.len() ==> !h2_heading(
                #[trigger] r.1@[k]@.body[j],
            ),
{
    let mut preamble: Vec<String> = Vec::new();
    let mut sections: Vec<Section> = Vec::new();
    let mut has_current = false;
    let mut heading = String::new();
    let mut body: Vec<String> = Vec::new();
    for i in 0..lines.len()
        invariant
            views(preamble@) + flatten_sections(section_views(sections@)) + (if has_current {
                seq![heading@] + views(body@)
            } else {
                seq![]
            }) == views(lines@.take(i as int)),
            !has_current ==> sections@.len() == 0 && body@.len() == 0,
            split_fold(views(lines@.take(i as int))) == (
                views(preamble@),
                section_views(sections@),
                if has_current {
                    Some(SectionView { heading: heading@, body: views(body@) })
                } else {
                    None
                },
            ),
            has_current ==> h2_heading(heading@),
            forall|j: int| 0 <= j < body@.len() ==> !h2_heading(#[trigger] body@[j]@),
            forall|j: int| 0 <= j < preamble@.len() ==> !h2_heading(#[trigger] preamble@[j]@),
            forall|k: int| 0 <= k < sections@.len() ==> h2_heading(#[trigger] sections@[k]@.heading),
            forall|k: int, j: int|
                0 <= k < sections@.len() && 0 <= j < sections@[k]@.body.len() ==> !h2_heading(
                    #[trigger] sections@[k]@.body[j],
                ),
    {
        let line = &lines[i];
        let ghost before = views(lines@.take(i as int));
        assert(views(lines@.take(i as int + 1)) =~= before.push(line@));
        assert(views(lines@.take(i as int + 1)).drop_last() =~= before);
        if is_h2_heading(line.as_str()) {
            if has_current {
                let ghost old_sections = section_views(sections@);
                let section = Section { heading: heading, body: body };
                sections.push(section);
                proof {
                    assert(section_views(sections@) =~= old_sections.push(section@));
                    assert(section_views(sections@).drop_last() =~= old_sections);
                    assert(flatten_sections(section_views(sections@)) == flatten_sections(
                        old_sections,
                    ) + section_lines(section@));
                }
                heading = line.clone();
                body = Vec::new();
                assert(views(preamble@) + flatten_sections(section_views(sections@)) + (seq![
                    heading@,
                ] + views(body@)) =~= before.push(line@));
            } else {
                heading = line.clone();
                body = Vec::new();
                has_current = true;
                assert(flatten_sections(section_views(sections@)) =~= Seq::<Seq<char>>::empty());
                assert(views(preamble@) + flatten_sections(section_views(sections@)) + (seq![
                    heading@,
                ] + views(body@)) =~= before.push(line@));
            }
        } else if has_current {
            let ghost old_body = views(body@);
            body.push(line.clone());
            assert(views(body@) =~= old_body.push(line@));
            assert(views(preamble@) + flatten_sections(section_views(sections@)) + (seq![
                heading@,
            ] + views(body@)) =~= before.push(line@));
        } else {
            let ghost old_pre = views(preamble@);
            preamble.push(line.clone());
            assert(views(preamble@) =~= old_pre.push(line@));
            assert(flatten_sections(section_views(sections@)) =~= Seq::<Seq<char>>::empty());
            assert(views(preamble@) + flatten_sections(section_views(sections@)) + Seq::<
                Seq<char>,
            >::empty() =~= before.push(line@));
        }
    }
    if has_current {
        let ghost old_sections = section_views(sections@);
        let section = Section { heading: heading, body: body };
        sections.push(section);
        proof {
            assert(section_views(sections@) =~= old_sections.push(section@));
            assert(section_views(sections@).drop_last() =~= old_sections);
        }
    } else {
        assert(views(preamble@) + flatten_sections(section_views(sections@)) =~= views(preamble@)
            + flatten_sections(section_views(sections@)) + Seq::<Seq<char>>::empty());
    }
    assert(lines@.take(lines@.len() as int) =~= lines@);
    (preamble, sections)
}

/// Collapses runs of blank lines, trims every line on the right, drops
/// blank lines at both ends, and ends each remaining line with `'\n'`.
pub fn normalize_blank_lines(lines: &[String]) -> (r: String)
    ensures
        r@ == normalized_text(views(lines@)),
{
    let mut cleaned: Vec<String> = Vec::new();
    let mut previous_blank = false;
    for i in 0..lines.len()
        invariant
            collapse_blank(views(lines@.take(i as int))) == (views(cleaned@), previous_blank),
    {
        proof {
            assert(views(lines@.take(i as int + 1)).drop_last() =~= views(lines@.take(i as int)));
        }
        let v = chars_of(lines[i].as_str());
        let t = trim_end_slice(v.as_slice(), CharClass::Whitespace);
        if t.len() == 0 {
            if !previous_blank && cleaned.len() > 0 {
                let e = String::new();
                assert(views(cleaned@.push(e)) =~= views(cleaned@).push(Seq::<char>::empty()));
                cleaned.push(e);
            }
            previous_blank = true;
        } else {
            let s = string_of(t);
            assert(views(cleaned@.push(s)) =~= views(cleaned@).push(s@));
            cleaned.push(s);
            previous_blank = false;
        }
    }
    assert(lines@.take(lines@.len() as int) =~= lines@);
    let ghost collapsed = views(cleaned@);
    while cleaned.len() > 0 && cleaned[cleaned.len() - 1].as_str().is_empty()
        invariant
            drop_trailing_empty(collapsed) == drop_trailing_empty(views(cleaned@)),
        decreases cleaned.len(),
    {
        assert(views(cleaned@).drop_last() =~= views(cleaned@.drop_last()));
        cleaned.pop();
    }
    if cleaned.len() == 0 {
        String::new()
    } else {
        let mut r = join_strings(cleaned.as_slice(), "\n");
        r.append("\n");
        r
    }
}

} // verus!
