//! How single Markdown lines are classified: noise to drop, headings,
//! list markers, table rows, images and page footers.
use vstd::prelude::*;
use crate::text::{
    CharClass, chars_contains, chars_eq, chars_of, chars_starts_with, contains, is_blank,
    is_whitespace, is_whitespace_char, lower, lower_chars, starts_with, string_of, trim,
    trim_class, trim_class_slice, trim_slice, trim_start_class, trim_start_slice,
};

verus! {

/// A line stripped of surrounding whitespace, of its leading bullet or
/// numbering, and of emphasis stars at either end.
pub open spec fn clean_marker(s: Seq<char>) -> Seq<char> {
    trim(
        trim_class(
            trim_class(trim(trim_start_class(trim(s), CharClass::ListMarker)), CharClass::Star),
            CharClass::FullWidthStar,
        ),
    )
}

/// A heading made of `#` characters and nothing else but whitespace.
pub open spec fn empty_heading(s: Seq<char>) -> bool {
    let rest = trim_start_class(s, CharClass::Hash);
    rest.len() < s.len() && is_blank(rest)
}

/// An item with no content: nothing, a bare bullet, or the placeholder `空白`.
pub open spec fn empty_item(s: Seq<char>) -> bool {
    let c = clean_marker(s);
    c.len() == 0 || c == "-"@ || c == "*"@ || c == "空白"@
}

/// A line about the discarded `魅力` attribute.
pub open spec fn charm_line(s: Seq<char>) -> bool {
    let c = clean_marker(s);
    c == "魅力"@ || starts_with(c, "魅力:"@) || starts_with(c, "魅力："@)
}

/// A line that is nothing but a row of `*` or of `＊`.
pub open spec fn useless_status_marker(s: Seq<char>) -> bool {
    let c = clean_marker(s);
    c.len() > 0 && ((forall|i: int| 0 <= i < c.len() ==> c[i] == '*') || (forall|i: int|
        0 <= i < c.len() ==> c[i] == '＊'))
}

pub open spec fn table_separator_char(c: char) -> bool {
    c == '|' || c == '-' || c == ':' || c == ' ' || c == '\t'
}

/// A Markdown table rule such as `| --- | :-: |`.
pub open spec fn table_separator(s: Seq<char>) -> bool {
    let t = trim(s);
    &&& t.len() > 0
    &&& t[0] == '|'
    &&& t.last() == '|'
    &&& forall|i: int| 0 <= i < t.len() ==> table_separator_char(t[i])
}

/// A table row `| | |` whose cells are all blank: between its bars there is
/// only whitespace.
pub open spec fn empty_table_row(s: Seq<char>) -> bool {
    let t = trim(s);
    &&& t.len() > 0
    &&& t[0] == '|'
    &&& t.last() == '|'
    &&& forall|i: int| 0 <= i < t.len() ==> t[i] == '|' || is_whitespace(t[i])
}

/// A line that embeds an image.
pub open spec fn image_line(s: Seq<char>) -> bool {
    let l = lower(s);
    contains(l, "!["@) || contains(l, "<img"@) || contains(l, "data:image"@) || contains(
        l,
        ";base64"@,
    )
}

/// A line of the site's footer: store, contact and social links, copyrights.
pub open spec fn footer_line(s: Seq<char>) -> bool {
    let l = lower(s);
    ||| contains(s, "Steamストア"@)
    ||| contains(s, "お問い合わせ"@)
    ||| contains(s, "X(Twitter)"@)
    ||| contains(s, "Discord"@)
    ||| contains(s, "©Dagdoria Studio"@)
    ||| contains(s, "©Mare Inc."@)
    ||| contains(l, "dagdoria studio"@)
    ||| contains(l, "mare inc"@)
    ||| contains(l, "twitter.com"@)
    ||| contains(l, "discord"@)
    ||| contains(l, "store.steampowered.com"@)
}

/// A non-blank line that carries nothing worth keeping.
pub open spec fn noise_line(s: Seq<char>) -> bool {
    let t = trim(s);
    &&& t.len() > 0
    &&& {
        ||| empty_heading(t)
        ||| empty_item(t)
        ||| charm_line(t)
        ||| image_line(t)
        ||| footer_line(t)
        ||| useless_status_marker(t)
        ||| empty_table_row(t)
    }
}

/// A level-two ATX heading.
pub open spec fn h2_heading(s: Seq<char>) -> bool {
    starts_with(s, "## "@) && !starts_with(s, "### "@)
}

/// The text of a heading, without its `#` marks.
pub open spec fn title_of(s: Seq<char>) -> Seq<char> {
    trim(trim_start_class(s, CharClass::Hash))
}

/// The sub-headings kept under the character detail section.
pub open spec fn detail_subheadings() -> Seq<Seq<char>> {
    seq!["基本設定"@, "外見"@, "性格"@, "口調"@, "経歴"@, "特技と役割"@, "その他の特徴"@]
}

pub open spec fn detail_valid_heading(s: Seq<char>) -> bool {
    detail_subheadings().contains(title_of(s))
}

pub open spec fn detail_charm_heading(s: Seq<char>) -> bool {
    title_of(s) == "魅力"@
}

/// The line opens the entry of the status `name`.
pub open spec fn contains_stat_name(line: Seq<char>, name: Seq<char>) -> bool {
    let c = clean_marker(line);
    c == name || starts_with(c, name + ":"@) || starts_with(c, name)
}

// ---------------------------------------------------------------------------
// Executable versions
// ---------------------------------------------------------------------------

fn clean_marker_slice<'a>(s: &'a [char]) -> (r: &'a [char])
    ensures
        r@ == clean_marker(s@),
{
    let t = trim_slice(s);
    let t = trim_start_slice(t, CharClass::ListMarker);
    let t = trim_slice(t);
    let t = trim_class_slice(t, CharClass::Star);
    let t = trim_class_slice(t, CharClass::FullWidthStar);
    trim_slice(t)
}

/// The text of a list line without its marker and emphasis stars.
pub fn clean_marker_text(line: &str) -> (r: String)
    ensures
        r@ == clean_marker(line@),
{
    let v = chars_of(line);
    string_of(clean_marker_slice(v.as_slice()))
}

fn lit_eq(s: &[char], lit: &str) -> (r: bool)
    ensures
        r == (s@ == lit@),
{
    let l = chars_of(lit);
    chars_eq(s, l.as_slice())
}

fn lit_starts(s: &[char], lit: &str) -> (r: bool)
    ensures
        r == starts_with(s@, lit@),
{
    let l = chars_of(lit);
    chars_starts_with(s, l.as_slice())
}

fn lit_contains(s: &[char], lit: &str) -> (r: bool)
    ensures
        r == contains(s@, lit@),
{
    let l = chars_of(lit);
    chars_contains(s, l.as_slice())
}

fn empty_heading_slice(s: &[char]) -> (r: bool)
    ensures
        r == empty_heading(s@),
{
    let rest = trim_start_slice(s, CharClass::Hash);
    rest.len() < s.len() && trim_slice(rest).len() == 0
}

pub fn is_empty_heading(line: &str) -> (r: bool)
    ensures
        r == empty_heading(line@),
{
    let v = chars_of(line);
    empty_heading_slice(v.as_slice())
}

fn empty_item_slice(s: &[char]) -> (r: bool)
    ensures
        r == empty_item(s@),
{
    let c = clean_marker_slice(s);
    c.len() == 0 || lit_eq(c, "-") || lit_eq(c, "*") || lit_eq(c, "空白")
}

pub fn is_empty_item(line: &str) -> (r: bool)
    ensures
        r == empty_item(line@),
{
    let v = chars_of(line);
    empty_item_slice(v.as_slice())
}

fn charm_line_slice(s: &[char]) -> (r: bool)
    ensures
        r == charm_line(s@),
{
    let c = clean_marker_slice(s);
    lit_eq(c, "魅力") || lit_starts(c, "魅力:") || lit_starts(c, "魅力：")
}

pub fn is_charm_line(line: &str) -> (r: bool)
    ensures
        r == charm_line(line@),
{
    let v = chars_of(line);
    charm_line_slice(v.as_slice())
}

fn all_equal(s: &[char], c: char) -> (r: bool)
    ensures
        r == forall|i: int| 0 <= i < s@.len() ==> s@[i] == c,
{
    for i in 0..s.len()
        invariant
            forall|j: int| 0 <= j < i ==> s@[j] == c,
    {
        if s[i] != c {
            return false;
        }
    }
    true
}

fn useless_status_marker_slice(s: &[char]) -> (r: bool)
    ensures
        r == useless_status_marker(s@),
{
    let c = clean_marker_slice(s);
    c.len() > 0 && (all_equal(c, '*') || all_equal(c, '＊'))
}

pub fn is_useless_status_marker(line: &str) -> (r: bool)
    ensures
        r == useless_status_marker(line@),
{
    let v = chars_of(line);
    useless_status_marker_slice(v.as_slice())
}

fn table_separator_slice(s: &[char]) -> (r: bool)
    ensures
        r == table_separator(s@),
{
    let t = trim_slice(s);
    if t.len() == 0 || t[0] != '|' || t[t.len() - 1] != '|' {
        return false;
    }
    for i in 0..t.len()
        invariant
            t@ == trim(s@),
            forall|j: int| 0 <= j < i ==> table_separator_char(t@[j]),
    {
        let c = t[i];
        if !(c == '|' || c == '-' || c == ':' || c == ' ' || c == '\t') {
            assert(!table_separator_char(t@[i as int]));
            return false;
        }
    }
    true
}

pub fn is_table_separator(line: &str) -> (r: bool)
    ensures
        r == table_separator(line@),
{
    let v = chars_of(line);
    table_separator_slice(v.as_slice())
}

fn empty_table_row_slice(s: &[char]) -> (r: bool)
    ensures
        r == empty_table_row(s@),
{
    let t = trim_slice(s);
    if t.len() == 0 || t[0] != '|' || t[t.len() - 1] != '|' {
        return false;
    }
    for i in 0..t.len()
        invariant
            t@ == trim(s@),
            forall|j: int| 0 <= j < i ==> t@[j] == '|' || is_whitespace(t@[j]),
    {
        if !(t[i] == '|' || is_whitespace_char(t[i])) {
            assert(!(t@[i as int] == '|' || is_whitespace(t@[i as int])));
            return false;
        }
    }
    true
}

pub fn is_empty_table_row(line: &str) -> (r: bool)
    ensures
        r == empty_table_row(line@),
{
    let v = chars_of(line);
    empty_table_row_slice(v.as_slice())
}

fn image_line_slice(s: &[char]) -> (r: bool)
    ensures
        r == image_line(s@),
{
    let l = lower_chars(s);
    let l = l.as_slice();
    lit_contains(l, "![") || lit_contains(l, "<img") || lit_contains(l, "data:image")
        || lit_contains(l, ";base64")
}

pub fn is_image_line(line: &str) -> (r: bool)
    ensures
        r == image_line(line@),
{
    let v = chars_of(line);
    image_line_slice(v.as_slice())
}

fn footer_line_slice(s: &[char]) -> (r: bool)
    ensures
        r == footer_line(s@),
{
    let lv = lower_chars(s);
    let l = lv.as_slice();
    lit_contains(s, "Steamストア") || lit_contains(s, "お問い合わせ") || lit_contains(s, "X(Twitter)")
        || lit_contains(s, "Discord") || lit_contains(s, "©Dagdoria Studio") || lit_contains(
        s,
        "©Mare Inc.",
    ) || lit_contains(l, "dagdoria studio") || lit_contains(l, "mare inc") || lit_contains(
        l,
        "twitter.com",
    ) || lit_contains(l, "discord") || lit_contains(l, "store.steampowered.com")
}

pub fn is_footer_line(line: &str) -> (r: bool)
    ensures
        r == footer_line(line@),
{
    let v = chars_of(line);
    footer_line_slice(v.as_slice())
}

/// Whether a line is noise to be dropped from the output.
pub fn should_skip_noise_line(line: &str) -> (r: bool)
    ensures
        r == noise_line(line@),
{
    let v = chars_of(line);
    let t = trim_slice(v.as_slice());
    if t.len() == 0 {
        return false;
    }
    empty_heading_slice(t) || empty_item_slice(t) || charm_line_slice(t) || image_line_slice(t)
        || footer_line_slice(t) || useless_status_marker_slice(t) || empty_table_row_slice(t)
}

pub fn is_h2_heading(line: &str) -> (r: bool)
    ensures
        r == h2_heading(line@),
{
    let v = chars_of(line);
    let s = v.as_slice();
    lit_starts(s, "## ") && !lit_starts(s, "### ")
}

fn title_slice<'a>(s: &'a [char]) -> (r: &'a [char])
    ensures
        r@ == title_of(s@),
{
    trim_slice(trim_start_slice(s, CharClass::Hash))
}

/// The title of a heading line.
pub fn heading_title(line: &str) -> (r: String)
    ensures
        r@ == title_of(line@),
{
    let v = chars_of(line);
    string_of(title_slice(v.as_slice()))
}

pub fn is_character_detail_valid_heading(line: &str) -> (r: bool)
    ensures
        r == detail_valid_heading(line@),
{
    let v = chars_of(line);
    let t = title_slice(v.as_slice());
    let names = vec!["基本設定", "外見", "性格", "口調", "経歴", "特技と役割", "その他の特徴"];
    assert(names@.map_values(|n: &str| n@) =~= detail_subheadings());
    for i in 0..names.len()
        invariant
            names@.map_values(|n: &str| n@) == detail_subheadings(),
            t@ == title_of(line@),
            forall|j: int| 0 <= j < i ==> detail_subheadings()[j] != t@,
    {
        assert(names@.map_values(|n: &str| n@)[i as int] == names@[i as int]@);
        if lit_eq(t, names[i]) {
            assert(detail_subheadings()[i as int] == t@);
            return true;
        }
    }
    assert(!detail_subheadings().contains(t@));
    false
}

pub fn is_character_detail_charm_heading(line: &str) -> (r: bool)
    ensures
        r == detail_charm_heading(line@),
{
    let v = chars_of(line);
    lit_eq(title_slice(v.as_slice()), "魅力")
}

/// Whether `line` opens the entry of the status `name`.
pub fn line_contains_stat_name(line: &str, name: &str) -> (r: bool)
    ensures
        r == contains_stat_name(line@, name@),
{
    let v = chars_of(line);
    let c = clean_marker_slice(v.as_slice());
    let mut with_colon = chars_of(name);
    with_colon.push(':');
    proof {
        reveal_strlit(":");
    }
    assert(with_colon@ =~= name@ + ":"@);
    let n = chars_of(name);
    chars_eq(c, n.as_slice()) || chars_starts_with(c, with_colon.as_slice()) || chars_starts_with(
        c,
        n.as_slice(),
    )
}

} // verus!
