//! The status section: one `- name: rank` line for each of the six statuses
//! whose rank can be read.
use vstd::prelude::*;
use crate::line_rules::{
    clean_marker, clean_marker_text, contains_stat_name, line_contains_stat_name,
};
use crate::text::{chars_eq, chars_ends_with, chars_of, concat, ends_with, views};

verus! {

/// The statuses that are reported, in output order.
pub open spec fn status_names() -> Seq<Seq<char>> {
    seq!["筋力"@, "耐久力"@, "知力"@, "精神力"@, "素早さ"@, "運"@]
}

/// The names that end a status entry: the six statuses and the discarded `魅力`.
pub open spec fn boundary_names() -> Seq<Seq<char>> {
    status_names().push("魅力"@)
}

/// The ranks, in the order in which they are tried.
pub open spec fn status_ranks() -> Seq<Seq<char>> {
    seq!["EX"@, "S"@, "A"@, "B"@, "C"@, "D"@, "E"@]
}

/// The first rank of `ranks` that the cleaned line is or ends with.
pub open spec fn rank_in(c: Seq<char>, ranks: Seq<Seq<char>>) -> Option<Seq<char>>
    decreases ranks.len(),
{
    if ranks.len() == 0 {
        None
    } else if c == ranks[0] || ends_with(c, ranks[0]) {
        Some(ranks[0])
    } else {
        rank_in(c, ranks.drop_first())
    }
}

/// The rank that the last line holding one gives.
pub open spec fn rank_of_lines(ls: Seq<Seq<char>>) -> Option<Seq<char>>
    decreases ls.len(),
{
    if ls.len() == 0 {
        None
    } else {
        match rank_in(clean_marker(ls.last()), status_ranks()) {
            Some(r) => Some(r),
            None => rank_of_lines(ls.drop_last()),
        }
    }
}

/// Index of the first line at or after `from` that opens the status `name`,
/// or `-1`.
pub open spec fn first_stat_line(ls: Seq<Seq<char>>, name: Seq<char>, from: int) -> int
    decreases ls.len() - from,
{
    if from < 0 || from >= ls.len() {
        -1
    } else if contains_stat_name(ls[from], name) {
        from
    } else {
        first_stat_line(ls, name, from + 1)
    }
}

/// Where the entry of `name` that starts at `start` ends: at the first later
/// line that opens another of `bounds`, or at the end.
pub open spec fn entry_end(
    ls: Seq<Seq<char>>,
    start: int,
    name: Seq<char>,
    bounds: Seq<Seq<char>>,
) -> int
    decreases bounds.len(),
{
    if bounds.len() == 0 {
        ls.len() as int
    } else {
        let rest = entry_end(ls, start, name, bounds.drop_last());
        let k = first_stat_line(ls, bounds.last(), start + 1);
        if bounds.last() == name || k < 0 || rest <= k {
            rest
        } else {
            k
        }
    }
}

/// The output line for the status `name`, if its entry holds a rank.
pub open spec fn status_entry(ls: Seq<Seq<char>>, name: Seq<char>) -> Option<Seq<char>> {
    let start = first_stat_line(ls, name, 0);
    if start < 0 {
        None
    } else {
        match rank_of_lines(ls.subrange(start, entry_end(ls, start, name, boundary_names()))) {
            Some(r) => Some("- "@ + name + ": "@ + r),
            None => None,
        }
    }
}

pub open spec fn status_lines(ls: Seq<Seq<char>>, names: Seq<Seq<char>>) -> Seq<Seq<char>>
    decreases names.len(),
{
    if names.len() == 0 {
        seq![]
    } else {
        let pre = status_lines(ls, names.drop_last());
        match status_entry(ls, names.last()) {
            Some(l) => pre.push(l),
            None => pre,
        }
    }
}

/// The body of the status section, or `None` when no status has a rank.
pub open spec fn status_section(ls: Seq<Seq<char>>) -> Option<Seq<Seq<char>>> {
    let r = status_lines(ls, status_names());
    if r.len() == 0 {
        None
    } else {
        Some(r)
    }
}

/// The view of an optional string slice.
pub open spec fn str_view(o: Option<&str>) -> Option<Seq<char>> {
    match o {
        Some(s) => Some(s@),
        None => None,
    }
}

// ---------------------------------------------------------------------------
// Lemmas
// ---------------------------------------------------------------------------

pub proof fn lemma_first_stat_line_bounds(ls: Seq<Seq<char>>, name: Seq<char>, from: int)
    ensures
        -1 <= first_stat_line(ls, name, from) < ls.len(),
        first_stat_line(ls, name, from) >= 0 ==> from <= first_stat_line(ls, name, from),
        first_stat_line(ls, name, from) >= 0 ==> contains_stat_name(
            ls[first_stat_line(ls, name, from)],
            name,
        ),
    decreases ls.len() - from,
{
    if 0 <= from < ls.len() && !contains_stat_name(ls[from], name) {
        lemma_first_stat_line_bounds(ls, name, from + 1);
    }
}

pub proof fn lemma_entry_end_bounds(
    ls: Seq<Seq<char>>,
    start: int,
    name: Seq<char>,
    bounds: Seq<Seq<char>>,
)
    requires
        0 <= start < ls.len(),
    ensures
        start < entry_end(ls, start, name, bounds) <= ls.len(),
    decreases bounds.len(),
{
    if bounds.len() > 0 {
        lemma_entry_end_bounds(ls, start, name, bounds.drop_last());
        lemma_first_stat_line_bounds(ls, bounds.last(), start + 1);
    }
}

// ---------------------------------------------------------------------------
// Executable functions
// ---------------------------------------------------------------------------

fn status_name_list() -> (v: Vec<&'static str>)
    ensures
        v@.map_values(|s: &str| s@) == status_names(),
{
    let v = vec!["筋力", "耐久力", "知力", "精神力", "素早さ", "運"];
    assert(v@.map_values(|s: &str| s@) =~= status_names());
    v
}

fn boundary_name_list() -> (v: Vec<&'static str>)
    ensures
        v@.map_values(|s: &str| s@) == boundary_names(),
{
    let v = vec!["筋力", "耐久力", "知力", "精神力", "素早さ", "運", "魅力"];
    assert(v@.map_values(|s: &str| s@) =~= boundary_names());
    v
}

fn rank_list() -> (v: Vec<&'static str>)
    ensures
        v@.map_values(|s: &str| s@) == status_ranks(),
{
    let v = vec!["EX", "S", "A", "B", "C", "D", "E"];
    assert(v@.map_values(|s: &str| s@) =~= status_ranks());
    v
}

/// The rank that the cleaned line `c` is or ends with.
fn rank_of_cleaned(c: &[char], ranks: &Vec<&'static str>) -> (r: Option<&'static str>)
    requires
        ranks@.map_values(|s: &str| s@) == status_ranks(),
    ensures
        str_view(r) == rank_in(c@, status_ranks()),
{
    let ghost all = status_ranks();
    assert(all.subrange(0, all.len() as int) =~= all);
    for i in 0..ranks.len()
        invariant
            ranks@.map_values(|s: &str| s@) == all,
            all == status_ranks(),
            rank_in(c@, all) == rank_in(c@, all.subrange(i as int, all.len() as int)),
    {
        let ghost rest = all.subrange(i as int, all.len() as int);
        assert(rest.drop_first() =~= all.subrange(i + 1, all.len() as int));
        assert(ranks@.map_values(|s: &str| s@)[i as int] == ranks@[i as int]@);
        let rank = chars_of(ranks[i]);
        if chars_eq(c, rank.as_slice()) || chars_ends_with(c, rank.as_slice()) {
            return Some(ranks[i]);
        }
    }
    None
}

/// The rank of a status entry: the rank that the last line holding one
/// ends with.
pub fn extract_rank(lines: &[String]) -> (r: Option<&'static str>)
    ensures
        str_view(r) == rank_of_lines(views(lines@)),
{
    let ranks = rank_list();
    let mut k = lines.len();
    assert(views(lines@).subrange(0, k as int) =~= views(lines@));
    while k > 0
        invariant
            k <= lines@.len(),
            ranks@.map_values(|s: &str| s@) == status_ranks(),
            rank_of_lines(views(lines@)) == rank_of_lines(views(lines@).subrange(0, k as int)),
        decreases k,
    {
        let ghost pre = views(lines@).subrange(0, k as int);
        assert(pre.drop_last() =~= views(lines@).subrange(0, k - 1));
        assert(pre.last() == lines@[k - 1]@);
        let cleaned = clean_marker_text(lines[k - 1].as_str());
        let cv = chars_of(cleaned.as_str());
        if let Some(rank) = rank_of_cleaned(cv.as_slice(), &ranks) {
            return Some(rank);
        }
        k -= 1;
    }
    None
}

/// The index of the first line at or after `from` that opens `name`.
fn find_stat_line(lines: &[String], name: &str, from: usize) -> (r: Option<usize>)
    ensures
        match r {
            Some(i) => i as int == first_stat_line(views(lines@), name@, from as int),
            None => first_stat_line(views(lines@), name@, from as int) == -1,
        },
{
    let n = lines.len();
    let mut i = from;
    if i >= n {
        return None;
    }
    while i < n
        invariant
            from <= i,
            n == lines@.len(),
            first_stat_line(views(lines@), name@, from as int) == first_stat_line(
                views(lines@),
                name@,
                i as int,
            ),
        decreases n - i,
    {
        if line_contains_stat_name(lines[i].as_str(), name) {
            return Some(i);
        }
        i += 1;
    }
    None
}

/// Reduces the status section to one `- name: rank` line per status whose
/// rank can be read; `None` when there is none.
pub fn process_status_section(lines: &[String]) -> (r: Option<Vec<String>>)
    ensures
        match r {
            Some(v) => status_section(views(lines@)) == Some(views(v@)),
            None => status_section(views(lines@)) is None,
        },
{
    let names = status_name_list();
    let bounds = boundary_name_list();
    let ghost ls = views(lines@);
    let ghost all = status_names();
    let mut result: Vec<String> = Vec::new();
    for i in 0..names.len()
        invariant
            ls == views(lines@),
            all == status_names(),
            names@.map_values(|s: &str| s@) == all,
            bounds@.map_values(|s: &str| s@) == boundary_names(),
            views(result@) == status_lines(ls, all.take(i as int)),
    {
        assert(names@.map_values(|s: &str| s@)[i as int] == names@[i as int]@);
        let name = names[i];
        assert(all.take(i as int + 1).drop_last() =~= all.take(i as int));
        assert(all.take(i as int + 1).last() == name@);
        if let Some(start) = find_stat_line(lines, name, 0) {
            // The entry ends at the nearest later line that opens another status.
            let n = lines.len();
            let mut end = n;
            proof {
                lemma_first_stat_line_bounds(ls, name@, 0);
            }
            for b in 0..bounds.len()
                invariant
                    ls == views(lines@),
                    n == lines@.len(),
                    0 <= start < ls.len(),
                    bounds@.map_values(|s: &str| s@) == boundary_names(),
                    end as int == entry_end(ls, start as int, name@, boundary_names().take(b as int)),
            {
                assert(bounds@.map_values(|s: &str| s@)[b as int] == bounds@[b as int]@);
                let ghost pre = boundary_names().take(b as int + 1);
                assert(pre.drop_last() =~= boundary_names().take(b as int));
                assert(pre.last() == bounds@[b as int]@);
                let bn = chars_of(bounds[b]);
                let nm = chars_of(name);
                if !chars_eq(bn.as_slice(), nm.as_slice()) {
                    if let Some(k) = find_stat_line(lines, bounds[b], start + 1) {
                        if k < end {
                            end = k;
                        }
                    }
                }
            }
            assert(boundary_names().take(bounds@.len() as int) =~= boundary_names());
            proof {
                lemma_entry_end_bounds(ls, start as int, name@, boundary_names());
            }
            assert(views(lines@.subrange(start as int, end as int)) =~= ls.subrange(
                start as int,
                end as int,
            ));
            if let Some(rank) = extract_rank(&lines[start..end]) {
                let line = concat(concat(concat("- ", name).as_str(), ": ").as_str(), rank);
                assert(views(result@.push(line)) =~= views(result@).push(line@));
                result.push(line);
            }
        }
    }
    assert(all.take(names@.len() as int) =~= all);
    if result.len() == 0 {
        None
    } else {
        Some(result)
    }
}

} // verus!
