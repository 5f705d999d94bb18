//! The HTML page: decoding its bytes, reading skills out of its DOM,
//! removing what is not shown, and rendering it as Markdown.
use vstd::prelude::*;
use vstd::utf8::{decode_utf8, valid_utf8};
use crate::dom::{
    dom_match_attribute, dom_match_count, dom_match_text, dom_serialized, opt_bytes, Document,
};
use crate::json::{skills_from_json_texts, skills_in_texts};
use crate::sheet::{cleaned_markdown, cleanup_markdown};
use crate::skills::{
    attribute_view, merge_missing_skills, merged, skill_views, skills_from_attributes,
    skills_of_attributes, SkillAttributes, SkillInfo, SkillView,
};
use crate::text::{
    chars_contains, chars_of, contains, is_whitespace, is_whitespace_char, lower, lower_chars,
    views,
};

verus! {

// ---------------------------------------------------------------------------
// Outside types and calls
// ---------------------------------------------------------------------------

/// The error of `html_to_markdown_rs::convert`, carried through opaquely.
#[verifier::external_type_specification]
#[verifier::external_body]
pub struct ExConversionError(html_to_markdown_rs::ConversionError);

/// Why a page could not be turned into Markdown, with the message to log.
#[derive(Debug, PartialEq, Eq)]
pub enum PageError {
    /// The Markdown converter failed.
    Conversion(String),
}

impl PageError {
    /// The message that the log shows for this error.
    pub fn message(&self) -> (r: String)
        ensures
            r@ == match self {
                PageError::Conversion(m) => m@,
            },
    {
        match self {
            PageError::Conversion(m) => m.clone(),
        }
    }
}

/// What `encoding_rs::SHIFT_JIS.decode` makes of a byte string (it decodes
/// as Shift_JIS unless a UTF-8 or UTF-16 byte order mark names another
/// encoding, and replaces malformed sequences).
pub uninterp spec fn shift_jis_decoded(bytes: Seq<u8>) -> Seq<char>;

/// What `html_to_markdown_rs::convert` gives for an HTML text and the three
/// options set here (the others at their defaults): `None` for an error,
/// otherwise the `content` of the result.
pub uninterp spec fn markdown_conversion(
    html: Seq<char>,
    extract_images: bool,
    extract_metadata: bool,
    include_document_structure: bool,
) -> Option<Option<Seq<char>>>;

/// Decodes bytes with `encoding_rs::SHIFT_JIS.decode`. Trusted: the text is
/// the decoder's, as named by [`shift_jis_decoded`]. The decoder panics when
/// its output buffer size overflows, which the length bound rules out.
#[verifier::external_body]
fn decode_shift_jis(bytes: &[u8]) -> (r: String)
    requires
        bytes@.len() <= usize::MAX / 4,
    ensures
        r@ == shift_jis_decoded(bytes@),
{
    let (decoded, _, _) = encoding_rs::SHIFT_JIS.decode(bytes);
    decoded.into_owned()
}

/// `std::str::from_utf8`: the text when the bytes are well-formed UTF-8,
/// otherwise the error's message.
#[verifier::external_body]
fn utf8_text(bytes: &[u8]) -> (r: Result<String, String>)
    ensures
        r is Ok <==> valid_utf8(bytes@),
        r matches Ok(s) ==> s@ == decode_utf8(bytes@),
{
    match std::str::from_utf8(bytes) {
        Ok(s) => Ok(s.to_string()),
        Err(e) => Err(e.to_string()),
    }
}

/// Converts HTML with `html_to_markdown_rs::convert`, the given options set
/// on top of the defaults, and hands back the `content` of the result.
/// Trusted: the outcome is the one named by [`markdown_conversion`].
#[verifier::external_body]
fn convert_to_markdown(html: &str, options: &MarkdownOptions) -> (r: Result<
    Option<String>,
    html_to_markdown_rs::ConversionError,
>)
    ensures
        r is Ok <==> markdown_conversion(
            html@,
            options.extract_images,
            options.extract_metadata,
            options.include_document_structure,
        ) is Some,
        r matches Ok(c) ==> Some(crate::skills::opt_view(c)) == markdown_conversion(
            html@,
            options.extract_images,
            options.extract_metadata,
            options.include_document_structure,
        ),
{
    let opts = html_to_markdown_rs::ConversionOptions {
        extract_images: options.extract_images,
        extract_metadata: options.extract_metadata,
        include_document_structure: options.include_document_structure,
        ..Default::default()
    };
    html_to_markdown_rs::convert(html, Some(opts)).map(|result| result.content)
}

/// The message of a conversion error (its `Display`).
#[verifier::external_body]
fn conversion_error_message(e: &html_to_markdown_rs::ConversionError) -> String {
    e.to_string()
}

// ---------------------------------------------------------------------------
// Decoding
// ---------------------------------------------------------------------------

/// The bytes start with the UTF-8 byte order mark.
pub open spec fn has_utf8_bom(bytes: Seq<u8>) -> bool {
    bytes.len() >= 3 && bytes[0] == 0xEF && bytes[1] == 0xBB && bytes[2] == 0xBF
}

/// The text of a page's bytes: UTF-8 (after the byte order mark, if there
/// is one) when they are UTF-8, Shift_JIS otherwise.
pub open spec fn decoded_page(bytes: Seq<u8>) -> Seq<char> {
    let rest = bytes.subrange(3, bytes.len() as int);
    if has_utf8_bom(bytes) && valid_utf8(rest) {
        decode_utf8(rest)
    } else if !has_utf8_bom(bytes) && valid_utf8(bytes) {
        decode_utf8(bytes)
    } else {
        shift_jis_decoded(bytes)
    }
}

/// Decodes the page: the text after a UTF-8 byte order mark when that is
/// UTF-8, otherwise the whole page as UTF-8 when it is UTF-8, and as
/// Shift_JIS when it is not.
pub fn decode_html(bytes: &[u8]) -> (r: Result<String, PageError>)
    requires
        bytes@.len() <= usize::MAX / 4,
    ensures
        r matches Ok(s) && s@ == decoded_page(bytes@),
{
    if bytes.len() >= 3 && bytes[0] == 0xEF && bytes[1] == 0xBB && bytes[2] == 0xBF {
        if let Ok(text) = utf8_text(&bytes[3..bytes.len()]) {
            return Ok(text);
        }
        return Ok(decode_shift_jis(bytes));
    }
    match utf8_text(bytes) {
        Ok(text) => Ok(text),
        Err(_) => Ok(decode_shift_jis(bytes)),
    }
}

// ---------------------------------------------------------------------------
// Hidden elements
// ---------------------------------------------------------------------------

/// An inline style with its letters in lower case and its whitespace removed.
pub open spec fn compact_style(s: Seq<char>) -> Seq<char> {
    lower(s).filter(|c: char| !is_whitespace(c))
}

/// An inline style that hides its element.
pub open spec fn style_hides(s: Seq<char>) -> bool {
    contains(compact_style(s), "display:none"@) || contains(compact_style(s), "visibility:hidden"@)
}

/// Whether an inline `style` attribute hides its element.
pub fn style_hides_element(style: &str) -> (r: bool)
    ensures
        r == style_hides(style@),
{
    let v = chars_of(style);
    let l = lower_chars(v.as_slice());
    let ghost keep = |c: char| !is_whitespace(c);
    let mut compact: Vec<char> = Vec::new();
    for i in 0..l.len()
        invariant
            keep == (|c: char| !is_whitespace(c)),
            compact@ == l@.take(i as int).filter(keep),
    {
        proof {
            reveal_with_fuel(Seq::filter, 1);
            assert(l@.take(i as int + 1).drop_last() =~= l@.take(i as int));
        }
        if !is_whitespace_char(l[i]) {
            compact.push(l[i]);
        }
    }
    assert(l@.take(l@.len() as int) =~= l@);
    let display = chars_of("display:none");
    let visibility = chars_of("visibility:hidden");
    chars_contains(compact.as_slice(), display.as_slice()) || chars_contains(
        compact.as_slice(),
        visibility.as_slice(),
    )
}

/// The page with every element that `selector` finds detached, in
/// document order.
pub open spec fn detached_all(page: (Seq<char>, Seq<(Seq<char>, nat, nat)>), selector: Seq<char>) -> (
    Seq<char>,
    Seq<(Seq<char>, nat, nat)>,
) {
    match dom_match_count(page, selector) {
        None => page,
        Some(n) => (page.0, page.1 + Seq::new(n, |i: int| (selector, page.1.len(), i as nat))),
    }
}

/// The page with the matches of each selector detached in turn.
pub open spec fn detached_each(
    page: (Seq<char>, Seq<(Seq<char>, nat, nat)>),
    selectors: Seq<Seq<char>>,
) -> (Seq<char>, Seq<(Seq<char>, nat, nat)>)
    decreases selectors.len(),
{
    if selectors.len() == 0 {
        page
    } else {
        detached_all(detached_each(page, selectors.drop_last()), selectors.last())
    }
}

/// The selectors of what preprocessing removes: scripts, styles, images,
/// footers and hidden elements.
pub open spec fn removed_selectors() -> Seq<Seq<char>> {
    seq![
        "script"@,
        "style"@,
        "img"@,
        "picture"@,
        "svg"@,
        "canvas"@,
        "footer"@,
        "[hidden]"@,
    ]
}

/// The detachments of the first `k` elements with a `style` attribute
/// whose inline style hides them.
pub open spec fn hidden_edits(page: (Seq<char>, Seq<(Seq<char>, nat, nat)>), k: nat) -> Seq<
    (Seq<char>, nat, nat),
>
    decreases k,
{
    if k == 0 {
        seq![]
    } else {
        let pre = hidden_edits(page, (k - 1) as nat);
        let hides = match dom_match_attribute((page, "[style]"@), (k - 1) as nat, "style"@) {
            Some(s) => style_hides(s),
            None => false,
        };
        if hides {
            pre.push(("[style]"@, page.1.len(), (k - 1) as nat))
        } else {
            pre
        }
    }
}

/// The page with every element whose inline style hides it detached.
pub open spec fn hidden_detached(page: (Seq<char>, Seq<(Seq<char>, nat, nat)>)) -> (
    Seq<char>,
    Seq<(Seq<char>, nat, nat)>,
) {
    match dom_match_count(page, "[style]"@) {
        None => page,
        Some(n) => (page.0, page.1 + hidden_edits(page, n)),
    }
}

/// The page as preprocessing leaves it.
pub open spec fn stripped(page: (Seq<char>, Seq<(Seq<char>, nat, nat)>)) -> (
    Seq<char>,
    Seq<(Seq<char>, nat, nat)>,
) {
    hidden_detached(detached_each(page, removed_selectors()))
}

/// The text to convert: the serialization when it is UTF-8, otherwise the
/// original HTML.
pub open spec fn page_text_of(serialized: Option<Seq<u8>>, original: Seq<char>) -> Seq<char> {
    match serialized {
        Some(bytes) => if valid_utf8(bytes) {
            decode_utf8(bytes)
        } else {
            original
        },
        None => original,
    }
}

/// The selector of elements that carry a skill in their attributes.
pub open spec fn skill_selector() -> Seq<char> {
    "[data-skill-name]"@
}

/// The selector of embedded JSON data.
pub open spec fn json_selector() -> Seq<char> {
    "script[type=\"application/json\"]"@
}

/// The name and description attributes of the elements that carry a skill.
pub open spec fn dom_skill_attributes(page: (Seq<char>, Seq<(Seq<char>, nat, nat)>)) -> Seq<
    (Option<Seq<char>>, Option<Seq<char>>),
> {
    match dom_match_count(page, skill_selector()) {
        None => seq![],
        Some(n) => Seq::new(
            n,
            |i: int|
                (
                    dom_match_attribute((page, skill_selector()), i as nat, "data-skill-name"@),
                    dom_match_attribute(
                        (page, skill_selector()),
                        i as nat,
                        "data-skill-description"@,
                    ),
                ),
        ),
    }
}

/// The texts of the page's `application/json` scripts.
pub open spec fn dom_json_texts(page: (Seq<char>, Seq<(Seq<char>, nat, nat)>)) -> Seq<Seq<char>> {
    match dom_match_count(page, json_selector()) {
        None => seq![],
        Some(n) => Seq::new(n, |i: int| dom_match_text((page, json_selector()), i as nat)),
    }
}

/// The skills of a page: those of element attributes, completed by those
/// of the embedded JSON.
pub open spec fn page_skills(page: (Seq<char>, Seq<(Seq<char>, nat, nat)>)) -> Seq<SkillView> {
    merged(skills_of_attributes(dom_skill_attributes(page)), skills_in_texts(dom_json_texts(page)))
}

/// The selectors of what preprocessing removes, in the order it removes
/// them.
pub fn removed_selector_list() -> (r: Vec<&'static str>)
    ensures
        r@.map_values(|s: &str| s@) == removed_selectors(),
{
    let r = vec!["script", "style", "img", "picture", "svg", "canvas", "footer", "[hidden]"];
    assert(r@.map_values(|s: &str| s@) =~= removed_selectors());
    r
}

/// Detaches every element that a selector finds.
pub fn remove_by_selector(document: &mut Document, selector: &str)
    ensures
        final(document)@ == detached_all(old(document)@, selector@),
{
    let ghost start = document@;
    if let Some(n) = document.select(selector) {
        for i in 0..n
            invariant
                dom_match_count(start, selector@) == Some(n as nat),
                document.selection() == Some((selector@, start.1.len())),
                document@ == (
                    start.0,
                    start.1 + Seq::new(i as nat, |j: int| (selector@, start.1.len(), j as nat)),
                ),
        {
            assert(document@.1.take(start.1.len() as int) =~= start.1);
            document.detach_selected(i);
            assert(document@.1 =~= start.1 + Seq::new(
                (i + 1) as nat,
                |j: int| (selector@, start.1.len(), j as nat),
            ));
        }
    } else {
        assert(start.1 =~= start.1 + Seq::<(Seq<char>, nat, nat)>::empty());
    }
}

/// Detaches every element whose inline style hides it.
pub fn remove_hidden_by_inline_style(document: &mut Document)
    ensures
        final(document)@ == hidden_detached(old(document)@),
{
    let ghost start = document@;
    let n = match document.select("[style]") {
        Some(n) => n,
        None => {
            return;
        },
    };
    assert(start.1 =~= start.1 + hidden_edits(start, 0));
    for i in 0..n
        invariant
            dom_match_count(start, "[style]"@) == Some(n as nat),
            document.selection() == Some(("[style]"@, start.1.len())),
            document@ == (start.0, start.1 + hidden_edits(start, i as nat)),
    {
        assert(document@.1.take(start.1.len() as int) =~= start.1);
        let attribute = document.selected_attribute(i, "style");
        match attribute {
            Some(style) => {
                if style_hides_element(style.as_str()) {
                    document.detach_selected(i);
                    assert(document@.1 =~= start.1 + hidden_edits(start, (i + 1) as nat));
                } else {
                    assert(hidden_edits(start, (i + 1) as nat) == hidden_edits(start, i as nat));
                }
            },
            None => {
                assert(hidden_edits(start, (i + 1) as nat) == hidden_edits(start, i as nat));
            },
        }
    }
}

/// The page text to convert: the serialized tree when it serialized to
/// UTF-8, otherwise the original HTML.
pub fn page_text(serialized: Option<Vec<u8>>, original_html: &str) -> (r: String)
    ensures
        r@ == page_text_of(opt_bytes(serialized), original_html@),
{
    match serialized {
        Some(bytes) => match utf8_text(bytes.as_slice()) {
            Ok(text) => text,
            Err(_) => String::from_str(original_html),
        },
        None => String::from_str(original_html),
    }
}

/// Removes scripts, styles, images, footers and hidden elements from the
/// page and serializes what is left; falls back to the original HTML when
/// the page does not serialize to UTF-8.
pub fn preprocess_html(document: &mut Document, original_html: &str) -> (r: String)
    ensures
        final(document)@ == stripped(old(document)@),
        r@ == page_text_of(dom_serialized(stripped(old(document)@)), original_html@),
{
    let ghost start = document@;
    let selectors = removed_selector_list();
    for i in 0..selectors.len()
        invariant
            selectors@.map_values(|s: &str| s@) == removed_selectors(),
            document@ == detached_each(start, removed_selectors().take(i as int)),
    {
        assert(removed_selectors().take(i as int + 1).drop_last() =~= removed_selectors().take(
            i as int,
        ));
        assert(selectors@[i as int]@ == removed_selectors()[i as int]);
        remove_by_selector(document, selectors[i]);
    }
    assert(removed_selectors().take(8) =~= removed_selectors());
    remove_hidden_by_inline_style(document);
    let serialized = document.serialize();
    page_text(serialized, original_html)
}

// ---------------------------------------------------------------------------
// Skills in the page
// ---------------------------------------------------------------------------

/// The skills that elements with a `data-skill-name` attribute describe,
/// with their `data-skill-description`. The page is left as it was.
pub fn extract_skills_from_html_attrs(document: &mut Document) -> (r: Vec<SkillInfo>)
    ensures
        final(document)@ == old(document)@,
        skill_views(r@) == skills_of_attributes(dom_skill_attributes(old(document)@)),
{
    let ghost start = document@;
    let ghost all = dom_skill_attributes(start);
    let n = match document.select("[data-skill-name]") {
        Some(n) => n,
        None => {
            let r: Vec<SkillInfo> = Vec::new();
            assert(skill_views(r@) =~= skills_of_attributes(all));
            return r;
        },
    };
    assert(document@.1.take(start.1.len() as int) =~= start.1);
    let mut entries: Vec<SkillAttributes> = Vec::new();
    for i in 0..n
        invariant
            document@ == start,
            document.selection() == Some((skill_selector(), start.1.len())),
            document.selected_page() == (start, skill_selector()),
            all == dom_skill_attributes(start),
            all.len() == n,
            entries@.map_values(|a: SkillAttributes| attribute_view(a)) == all.take(i as int),
    {
        let entry = SkillAttributes {
            name: document.selected_attribute(i, "data-skill-name"),
            skill_type: document.selected_attribute(i, "data-skill-type"),
            description: document.selected_attribute(i, "data-skill-description"),
        };
        let ghost e = entries@;
        assert(attribute_view(entry) == all[i as int]);
        entries.push(entry);
        assert(entries@.map_values(|a: SkillAttributes| attribute_view(a)) =~= all.take(
            i as int + 1,
        )) by {
            assert(entries@ == e.push(entry));
            assert(entries@.map_values(|a: SkillAttributes| attribute_view(a)) =~= e.map_values(
                |a: SkillAttributes| attribute_view(a),
            ).push(attribute_view(entry)));
            assert(all.take(i as int + 1) =~= all.take(i as int).push(all[i as int]));
        }
    }
    assert(all.take(all.len() as int) =~= all);
    skills_from_attributes(entries.as_slice())
}

/// The skills in the page's `application/json` scripts. The page is left
/// as it was.
pub fn extract_skills_from_json(document: &mut Document) -> (r: Vec<SkillInfo>)
    ensures
        final(document)@ == old(document)@,
        skill_views(r@) == skills_in_texts(dom_json_texts(old(document)@)),
{
    let ghost start = document@;
    let ghost all = dom_json_texts(start);
    let n = match document.select("script[type=\"application/json\"]") {
        Some(n) => n,
        None => {
            let r: Vec<SkillInfo> = Vec::new();
            assert(skill_views(r@) =~= skills_in_texts(all));
            return r;
        },
    };
    assert(document@.1.take(start.1.len() as int) =~= start.1);
    let mut texts: Vec<String> = Vec::new();
    for i in 0..n
        invariant
            document@ == start,
            document.selection() == Some((json_selector(), start.1.len())),
            document.selected_page() == (start, json_selector()),
            all == dom_json_texts(start),
            all.len() == n,
            views(texts@) == all.take(i as int),
    {
        let text = document.selected_text(i);
        let ghost t = texts@;
        assert(text@ == all[i as int]);
        texts.push(text);
        assert(views(texts@) =~= all.take(i as int + 1)) by {
            assert(texts@ == t.push(text));
            assert(views(texts@) =~= views(t).push(text@));
            assert(all.take(i as int + 1) =~= all.take(i as int).push(all[i as int]));
        }
    }
    assert(all.take(all.len() as int) =~= all);
    skills_from_json_texts(&texts)
}

/// The page's skills: those of element attributes first, completed by those
/// of the embedded JSON. The page is left as it was.
pub fn extract_skills(document: &mut Document) -> (r: Vec<SkillInfo>)
    ensures
        final(document)@ == old(document)@,
        skill_views(r@) == page_skills(old(document)@),
{
    let mut skills = extract_skills_from_html_attrs(document);
    let fallback = extract_skills_from_json(document);
    merge_missing_skills(&mut skills, fallback);
    skills
}

/// Parses the page, reads its skills before anything is removed, then
/// strips the elements that are not shown; gives the skills and the HTML
/// text to convert.
pub fn prepare_page(html: &str) -> (r: (Vec<SkillInfo>, String))
    ensures
        skill_views(r.0@) == page_skills((html@, Seq::<(Seq<char>, nat, nat)>::empty())),
        r.1@ == page_text_of(
            dom_serialized(stripped((html@, Seq::<(Seq<char>, nat, nat)>::empty()))),
            html@,
        ),
{
    let mut document = Document::parse(html);
    let skills = extract_skills(&mut document);
    let cleaned = preprocess_html(&mut document, html);
    (skills, cleaned)
}

// ---------------------------------------------------------------------------
// Markdown rendering
// ---------------------------------------------------------------------------

/// The rendering options that the conversion sets.
pub struct MarkdownOptions {
    pub extract_images: bool,
    pub extract_metadata: bool,
    pub include_document_structure: bool,
}

/// Renders the HTML as Markdown, without images, metadata or document
/// structure; an empty text when the converter gives no content, and the
/// converter's message when it fails.
pub fn markdown_from_html(html: &str) -> (r: Result<String, PageError>)
    ensures
        r is Ok <==> markdown_conversion(html@, false, false, false) is Some,
        r is Err ==> r->Err_0 is Conversion,
        r matches Ok(s) ==> s@ == match markdown_conversion(html@, false, false, false) {
            Some(Some(c)) => c,
            _ => Seq::<char>::empty(),
        },
{
    let options = MarkdownOptions {
        extract_images: false,
        extract_metadata: false,
        include_document_structure: false,
    };
    match convert_to_markdown(html, &options) {
        Ok(Some(content)) => Ok(content),
        Ok(None) => Ok(String::new()),
        Err(e) => Err(PageError::Conversion(conversion_error_message(&e))),
    }
}

// ---------------------------------------------------------------------------
// The whole page
// ---------------------------------------------------------------------------

/// What the converter gives for a page's bytes: decoded, its skills read,
/// stripped, and rendered.
pub open spec fn page_conversion(bytes: Seq<u8>) -> Option<Option<Seq<char>>> {
    let html = decoded_page(bytes);
    markdown_conversion(
        page_text_of(dom_serialized(stripped((html, Seq::empty()))), html),
        false,
        false,
        false,
    )
}

/// The Markdown written for a page's bytes when the converter succeeds.
pub open spec fn page_markdown(bytes: Seq<u8>) -> Seq<char> {
    let html = decoded_page(bytes);
    let rendered = match page_conversion(bytes) {
        Some(Some(c)) => c,
        _ => Seq::<char>::empty(),
    };
    cleaned_markdown(rendered, page_skills((html, Seq::<(Seq<char>, nat, nat)>::empty())))
}

/// Turns a page's bytes into the cleaned-up Markdown: decodes them, reads
/// the skills, strips what is not shown, renders the rest and cleans the
/// rendering up; the converter's message when it fails.
pub fn convert_page(bytes: &[u8]) -> (r: Result<String, PageError>)
    requires
        bytes@.len() <= usize::MAX / 4,
    ensures
        r is Ok <==> page_conversion(bytes@) is Some,
        r is Err ==> r->Err_0 is Conversion,
        r matches Ok(md) ==> md@ == page_markdown(bytes@),
{
    let html = match decode_html(bytes) {
        Ok(html) => html,
        Err(e) => {
            return Err(e);
        },
    };
    let (skills, cleaned) = prepare_page(html.as_str());
    let markdown = match markdown_from_html(cleaned.as_str()) {
        Ok(markdown) => markdown,
        Err(e) => {
            return Err(e);
        },
    };
    Ok(cleanup_markdown(markdown.as_str(), skills.as_slice()))
}

} // verus!
