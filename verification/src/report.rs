//! File names, the per-file results, and the text of the log and of the
//! closing message.
use vstd::prelude::*;
use crate::text::{
    chars_eq, chars_of, concat, decimal, decimal_string, lower, lower_chars, string_of, views,
};

verus! {

// ---------------------------------------------------------------------------
// File names
// ---------------------------------------------------------------------------

/// Index of the last `'.'` of `s`, or `-1`.
pub open spec fn last_dot(s: Seq<char>) -> int
    decreases s.len(),
{
    if s.len() == 0 {
        -1
    } else if s.last() == '.' {
        s.len() - 1
    } else {
        last_dot(s.drop_last())
    }
}

/// `Path::extension` of a file name: the text after the last `'.'`, unless
/// there is none, the only one opens the name, or the name is `..`.
pub open spec fn extension_of(name: Seq<char>) -> Option<Seq<char>> {
    let k = last_dot(name);
    if name == ".."@ || k <= 0 {
        None
    } else {
        Some(name.subrange(k + 1, name.len() as int))
    }
}

/// `Path::file_stem` of a file name: the text before the last `'.'`, or the
/// whole name when it has no extension; none for an empty name.
pub open spec fn stem_of(name: Seq<char>) -> Option<Seq<char>> {
    let k = last_dot(name);
    if name.len() == 0 {
        None
    } else if name == ".."@ || k <= 0 {
        Some(name)
    } else {
        Some(name.subrange(0, k))
    }
}

/// A file name with the extension `html` or `htm`, in any case.
pub open spec fn html_file_name(name: Seq<char>) -> bool {
    match extension_of(name) {
        Some(e) => lower(e) == "html"@ || lower(e) == "htm"@,
        None => false,
    }
}

proof fn lemma_last_dot(s: Seq<char>)
    ensures
        -1 <= last_dot(s) < s.len(),
        last_dot(s) >= 0 ==> s[last_dot(s)] == '.',
    decreases s.len(),
{
    if s.len() > 0 && s.last() != '.' {
        lemma_last_dot(s.drop_last());
    }
}

fn find_last_dot(s: &[char]) -> (r: Option<usize>)
    ensures
        match r {
            Some(k) => k as int == last_dot(s@),
            None => last_dot(s@) == -1,
        },
{
    let mut j = s.len();
    assert(s@.subrange(0, j as int) =~= s@);
    while j > 0
        invariant
            j <= s@.len(),
            last_dot(s@) == last_dot(s@.subrange(0, j as int)),
        decreases j,
    {
        assert(s@.subrange(0, j as int).drop_last() =~= s@.subrange(0, j - 1));
        if s[j - 1] == '.' {
            return Some(j - 1);
        }
        j -= 1;
    }
    None
}

fn is_dot_dot(s: &[char]) -> (r: bool)
    ensures
        r == (s@ == ".."@),
{
    let d = chars_of("..");
    chars_eq(s, d.as_slice())
}

/// Whether a file name has the extension `html` or `htm`, in any case.
pub fn is_html_file(file_name: &str) -> (r: bool)
    ensures
        r == html_file_name(file_name@),
{
    let v = chars_of(file_name);
    let s = v.as_slice();
    if is_dot_dot(s) {
        return false;
    }
    match find_last_dot(s) {
        Some(k) => {
            if k == 0 {
                return false;
            }
            proof {
                lemma_last_dot(s@);
            }
            let ext = lower_chars(&s[k + 1..s.len()]);
            let html = chars_of("html");
            let htm = chars_of("htm");
            chars_eq(ext.as_slice(), html.as_slice()) || chars_eq(ext.as_slice(), htm.as_slice())
        },
        None => false,
    }
}

/// The stem of a file name, as `Path::file_stem` gives it.
pub fn file_stem(file_name: &str) -> (r: Option<String>)
    ensures
        crate::skills::opt_view(r) == stem_of(file_name@),
{
    let v = chars_of(file_name);
    let s = v.as_slice();
    if s.len() == 0 {
        return None;
    }
    if is_dot_dot(s) {
        return Some(string_of(s));
    }
    match find_last_dot(s) {
        Some(k) => {
            if k == 0 {
                Some(string_of(s))
            } else {
                proof {
                    lemma_last_dot(s@);
                }
                Some(string_of(&s[0..k]))
            }
        },
        None => Some(string_of(s)),
    }
}

/// The name of the Markdown file written for a page with this stem.
pub open spec fn output_name_of(stem: Seq<char>) -> Seq<char> {
    stem + ".md"@
}

/// The name of the Markdown file written for a page with this stem.
pub fn output_file_name(stem: &str) -> (r: String)
    ensures
        r@ == output_name_of(stem@),
{
    concat(stem, ".md")
}

// ---------------------------------------------------------------------------
// Results and log lines
// ---------------------------------------------------------------------------

/// How long one stage of a conversion took.
pub struct StageTiming {
    pub name: String,
    pub millis: u128,
}

/// The outcome of converting one file: paths as displayed, the error
/// message if it failed, and the stage timings.
pub struct FileResult {
    pub input: String,
    pub output: Option<String>,
    pub error: Option<String>,
    pub timings: Vec<StageTiming>,
}

/// Counts over a run.
pub struct RunSummary {
    pub total: usize,
    pub success: usize,
    pub failure: usize,
}

/// When a run started, relative to the Unix epoch.
pub enum EpochOffset {
    /// Whole seconds after the epoch.
    After(u64),
    /// Milliseconds before the epoch.
    Before(u128),
}

/// `"<n> ms"`.
pub open spec fn duration_text(millis: nat) -> Seq<char> {
    decimal(millis) + " ms"@
}

pub open spec fn epoch_text(o: EpochOffset) -> Seq<char> {
    match o {
        EpochOffset::After(secs) => decimal(secs as nat) + " seconds since Unix epoch"@,
        EpochOffset::Before(ms) => "before Unix epoch by "@ + decimal(ms as nat) + " ms"@,
    }
}

pub open spec fn timing_lines(t: Seq<StageTiming>) -> Seq<Seq<char>>
    decreases t.len(),
{
    if t.len() == 0 {
        seq![]
    } else {
        timing_lines(t.drop_last()).push(t.last().name@ + ": "@ + duration_text(
            t.last().millis as nat,
        ))
    }
}

pub open spec fn status_prefix(failed: bool) -> Seq<char> {
    if failed {
        "[NG] "@
    } else {
        "[OK] "@
    }
}

pub open spec fn output_line(o: Option<String>) -> Seq<char> {
    match o {
        Some(o) => "出力ファイル名: "@ + o@,
        None => "出力ファイル名: (not created)"@,
    }
}

pub open spec fn error_lines(e: Option<String>) -> Seq<Seq<char>> {
    match e {
        Some(e) => seq!["エラー詳細: "@ + e@],
        None => seq![],
    }
}

/// The log lines for one file.
pub open spec fn result_lines(r: FileResult) -> Seq<Seq<char>> {
    seq![
        seq![],
        status_prefix(r.error is Some) + r.input@,
        "入力ファイル名: "@ + r.input@,
        output_line(r.output),
    ] + error_lines(r.error) + timing_lines(r.timings@)
}

/// The number of results without an error.
pub open spec fn success_count(rs: Seq<FileResult>) -> nat
    decreases rs.len(),
{
    if rs.len() == 0 {
        0
    } else {
        success_count(rs.drop_last()) + if rs.last().error is None {
            1nat
        } else {
            0nat
        }
    }
}

/// The message shown when the run ends.
pub open spec fn completion_text(s: RunSummary) -> Seq<char> {
    if s.total == 0 {
        "完了: 変換対象のHTMLファイルはありません。input フォルダに .html または .htm を入れてください。"@
    } else {
        "完了: 変換対象 "@ + decimal(s.total as nat) + "件 / 成功 "@ + decimal(s.success as nat)
            + "件 / 失敗 "@ + decimal(s.failure as nat) + "件。詳細は log.txt を確認してください。"@
    }
}

/// The log lines that open a run.
pub open spec fn header_lines(
    version: Seq<char>,
    started: EpochOffset,
    base_dir: Seq<char>,
    input_dir: Seq<char>,
    output_dir: Seq<char>,
    total: nat,
    collect_millis: nat,
) -> Seq<Seq<char>> {
    seq![
        "ツール名: saga-seeker-html2md"@,
        "バージョン: "@ + version,
        "実行日時: "@ + epoch_text(started),
        "実行ディレクトリ: "@ + base_dir,
        "input フォルダ: "@ + input_dir,
        "output フォルダ: "@ + output_dir,
        "変換対象ファイル数: "@ + decimal(total),
        "ファイル一覧収集: "@ + duration_text(collect_millis),
    ]
}

/// The log lines that close a run.
pub open spec fn footer_lines(s: RunSummary, total_millis: nat) -> Seq<Seq<char>> {
    seq![
        seq![],
        "合計件数: "@ + decimal(s.total as nat),
        "成功件数: "@ + decimal(s.success as nat),
        "失敗件数: "@ + decimal(s.failure as nat),
        "合計時間: "@ + duration_text(total_millis),
    ]
}

/// `"<n> ms"`.
pub fn format_duration(millis: u128) -> (r: String)
    ensures
        r@ == duration_text(millis as nat),
{
    let d = decimal_string(millis);
    concat(d.as_str(), " ms")
}

/// The start of a run, relative to the Unix epoch.
pub fn format_system_time(started: &EpochOffset) -> (r: String)
    ensures
        r@ == epoch_text(*started),
{
    match started {
        EpochOffset::After(secs) => {
            let d = decimal_string(*secs as u128);
            concat(d.as_str(), " seconds since Unix epoch")
        },
        EpochOffset::Before(ms) => {
            let d = decimal_string(*ms);
            let head = concat("before Unix epoch by ", d.as_str());
            concat(head.as_str(), " ms")
        },
    }
}

/// The name under which the log gives a file's total time.
pub open spec fn total_stage_name() -> Seq<char> {
    "ファイル合計時間"@
}

/// The result of a conversion that failed: the timings so far, then the
/// total time.
pub fn file_error(
    input: String,
    output: Option<String>,
    error: String,
    timings: Vec<StageTiming>,
    total_millis: u128,
) -> (r: FileResult)
    ensures
        r.input == input,
        r.output == output,
        r.error == Some(error),
        r.timings@.len() == timings@.len() + 1,
        forall|i: int| 0 <= i < timings@.len() ==> r.timings@[i] == timings@[i],
        r.timings@.last().name@ == total_stage_name(),
        r.timings@.last().millis == total_millis,
{
    let mut timings = timings;
    timings.push(StageTiming { name: String::from_str("ファイル合計時間"), millis: total_millis });
    FileResult { input, output, error: Some(error), timings }
}

fn push_line(lines: &mut Vec<String>, line: String)
    ensures
        views(final(lines)@) == views(old(lines)@).push(line@),
{
    let ghost before = views(lines@);
    lines.push(line);
    assert(views(lines@) =~= before.push(line@));
}

/// Appends the log lines for one file.
pub fn append_file_result_log(log_lines: &mut Vec<String>, result: &FileResult)
    ensures
        views(final(log_lines)@) == views(old(log_lines)@) + result_lines(*result),
{
    let ghost start = views(log_lines@);
    push_line(log_lines, String::new());
    if result.error.is_some() {
        push_line(log_lines, concat("[NG] ", result.input.as_str()));
    } else {
        push_line(log_lines, concat("[OK] ", result.input.as_str()));
    }
    push_line(log_lines, concat("入力ファイル名: ", result.input.as_str()));
    match &result.output {
        Some(output) => push_line(log_lines, concat("出力ファイル名: ", output.as_str())),
        None => push_line(log_lines, String::from_str("出力ファイル名: (not created)")),
    }
    if let Some(error) = &result.error {
        push_line(log_lines, concat("エラー詳細: ", error.as_str()));
    }
    let ghost mid = views(log_lines@);
    assert(mid =~= start + (seq![
        Seq::<char>::empty(),
        status_prefix(result.error is Some) + result.input@,
        "入力ファイル名: "@ + result.input@,
        output_line(result.output),
    ] + error_lines(result.error)));
    let timings = &result.timings;
    for i in 0..timings.len()
        invariant
            views(log_lines@) == mid + timing_lines(timings@.take(i as int)),
    {
        assert(timings@.take(i as int + 1).drop_last() =~= timings@.take(i as int));
        let t = &timings[i];
        let d = format_duration(t.millis);
        let head = concat(t.name.as_str(), ": ");
        push_line(log_lines, concat(head.as_str(), d.as_str()));
    }
    assert(timings@.take(timings@.len() as int) =~= timings@);
    assert(views(log_lines@) =~= start + result_lines(*result));
}

/// Totals over the results of a run.
pub fn run_summary(results: &[FileResult]) -> (r: RunSummary)
    ensures
        r.total == results@.len(),
        r.success == success_count(results@),
        r.failure == r.total - r.success,
{
    let mut success: usize = 0;
    for i in 0..results.len()
        invariant
            success == success_count(results@.take(i as int)),
            success <= i,
    {
        assert(results@.take(i as int + 1).drop_last() =~= results@.take(i as int));
        if results[i].error.is_none() {
            success += 1;
        }
    }
    assert(results@.take(results@.len() as int) =~= results@);
    let total = results.len();
    RunSummary { total, success, failure: total.saturating_sub(success) }
}

/// The message shown when the run ends.
pub fn completion_message(summary: &RunSummary) -> (r: String)
    ensures
        r@ == completion_text(*summary),
{
    if summary.total == 0 {
        return String::from_str(
            "完了: 変換対象のHTMLファイルはありません。input フォルダに .html または .htm を入れてください。",
        );
    }
    let total = decimal_string(summary.total as u128);
    let success = decimal_string(summary.success as u128);
    let failure = decimal_string(summary.failure as u128);
    let mut r = String::from_str("完了: 変換対象 ");
    r.append(total.as_str());
    r.append("件 / 成功 ");
    r.append(success.as_str());
    r.append("件 / 失敗 ");
    r.append(failure.as_str());
    r.append("件。詳細は log.txt を確認してください。");
    r
}

/// The log lines that open a run.
pub fn run_header_lines(
    version: &str,
    started: &EpochOffset,
    base_dir: &str,
    input_dir: &str,
    output_dir: &str,
    total: usize,
    collect_millis: u128,
) -> (r: Vec<String>)
    ensures
        views(r@) == header_lines(
            version@,
            *started,
            base_dir@,
            input_dir@,
            output_dir@,
            total as nat,
            collect_millis as nat,
        ),
{
    let mut r: Vec<String> = Vec::new();
    push_line(&mut r, String::from_str("ツール名: saga-seeker-html2md"));
    push_line(&mut r, concat("バージョン: ", version));
    let time = format_system_time(started);
    push_line(&mut r, concat("実行日時: ", time.as_str()));
    push_line(&mut r, concat("実行ディレクトリ: ", base_dir));
    push_line(&mut r, concat("input フォルダ: ", input_dir));
    push_line(&mut r, concat("output フォルダ: ", output_dir));
    let count = decimal_string(total as u128);
    push_line(&mut r, concat("変換対象ファイル数: ", count.as_str()));
    let collect = format_duration(collect_millis);
    push_line(&mut r, concat("ファイル一覧収集: ", collect.as_str()));
    assert(views(r@) =~= header_lines(
        version@,
        *started,
        base_dir@,
        input_dir@,
        output_dir@,
        total as nat,
        collect_millis as nat,
    ));
    r
}

/// The log lines that close a run.
pub fn run_footer_lines(summary: &RunSummary, total_millis: u128) -> (r: Vec<String>)
    ensures
        views(r@) == footer_lines(*summary, total_millis as nat),
{
    let mut r: Vec<String> = Vec::new();
    push_line(&mut r, String::new());
    let total = decimal_string(summary.total as u128);
    push_line(&mut r, concat("合計件数: ", total.as_str()));
    let success = decimal_string(summary.success as u128);
    push_line(&mut r, concat("成功件数: ", success.as_str()));
    let failure = decimal_string(summary.failure as u128);
    push_line(&mut r, concat("失敗件数: ", failure.as_str()));
    let time = format_duration(total_millis);
    push_line(&mut r, concat("合計時間: ", time.as_str()));
    assert(views(r@) =~= footer_lines(*summary, total_millis as nat));
    r
}

// ---------------------------------------------------------------------------
// Order of file names
// ---------------------------------------------------------------------------

/// `a` comes before `b` in the lexicographic order of code points (for
/// UTF-8 names, the byte order of `OsStr`).
pub open spec fn name_lt(a: Seq<char>, b: Seq<char>) -> bool
    decreases a.len(),
{
    if a.len() == 0 {
        b.len() > 0
    } else if b.len() == 0 {
        false
    } else if a[0] != b[0] {
        a[0] < b[0]
    } else {
        name_lt(a.drop_first(), b.drop_first())
    }
}

pub open spec fn name_le(a: Seq<char>, b: Seq<char>) -> bool {
    name_lt(a, b) || a == b
}

pub open spec fn names_sorted(s: Seq<Seq<char>>) -> bool {
    forall|i: int, j: int| 0 <= i < j < s.len() ==> name_le(s[i], s[j])
}

pub proof fn lemma_name_lt_total(a: Seq<char>, b: Seq<char>)
    ensures
        name_lt(a, b) || name_lt(b, a) || a == b,
    decreases a.len(),
{
    if a.len() > 0 && b.len() > 0 && a[0] == b[0] {
        lemma_name_lt_total(a.drop_first(), b.drop_first());
        if a.drop_first() == b.drop_first() {
            assert(a =~= seq![a[0]] + a.drop_first());
            assert(b =~= seq![b[0]] + b.drop_first());
        }
    } else if a.len() == 0 && b.len() == 0 {
        assert(a =~= b);
    }
}

pub proof fn lemma_name_lt_transitive(a: Seq<char>, b: Seq<char>, c: Seq<char>)
    requires
        name_lt(a, b),
        name_lt(b, c),
    ensures
        name_lt(a, c),
    decreases a.len(),
{
    if a.len() > 0 && b.len() > 0 && c.len() > 0 && a[0] == b[0] && b[0] == c[0] {
        lemma_name_lt_transitive(a.drop_first(), b.drop_first(), c.drop_first());
    }
}

fn name_less(a: &[char], b: &[char]) -> (r: bool)
    ensures
        r == name_lt(a@, b@),
{
    let mut i: usize = 0;
    let n = if a.len() < b.len() {
        a.len()
    } else {
        b.len()
    };
    assert(a@.subrange(0, a@.len() as int) =~= a@);
    assert(b@.subrange(0, b@.len() as int) =~= b@);
    while i < n
        invariant
            n <= a@.len(),
            n <= b@.len(),
            n == a@.len() || n == b@.len(),
            i <= n,
            name_lt(a@, b@) == name_lt(
                a@.subrange(i as int, a@.len() as int),
                b@.subrange(i as int, b@.len() as int),
            ),
        decreases n - i,
    {
        let ghost ra = a@.subrange(i as int, a@.len() as int);
        let ghost rb = b@.subrange(i as int, b@.len() as int);
        assert(ra.drop_first() =~= a@.subrange(i + 1, a@.len() as int));
        assert(rb.drop_first() =~= b@.subrange(i + 1, b@.len() as int));
        if a[i] != b[i] {
            return a[i] < b[i];
        }
        i += 1;
    }
    i < b.len()
}

/// Sorts file names by code point order, the order in which the pages
/// are converted.
pub fn sort_file_names(names: Vec<String>) -> (r: Vec<String>)
    ensures
        names_sorted(views(r@)),
        r@.to_multiset() == names@.to_multiset(),
{
    let mut v = names;
    let n = v.len();
    for i in 0..n
        invariant
            n == v@.len(),
            names_sorted(views(v@.take(i as int))),
            v@.to_multiset() == names@.to_multiset(),
    {
        let ghost before = v@;
        let x = v.remove(i);
        let xv = chars_of(x.as_str());
        let mut j: usize = 0;
        while j < i
            invariant
                i < n,
                before.len() == n,
                v@ == before.remove(i as int),
                x == before[i as int],
                xv@ == x@,
                j <= i,
                forall|k: int| 0 <= k < j ==> !name_lt(x@, #[trigger] v@[k]@),
            ensures
                j <= i,
                v@ == before.remove(i as int),
                forall|k: int| 0 <= k < j ==> !name_lt(x@, #[trigger] v@[k]@),
                j < i ==> name_lt(x@, v@[j as int]@),
            decreases i - j,
        {
            let yv = chars_of(v[j].as_str());
            if name_less(xv.as_slice(), yv.as_slice()) {
                break;
            }
            j += 1;
        }
        let ghost rest = v@;
        v.insert(j, x);
        proof {
            let s = views(before.take(i as int));
            assert forall|k: int| 0 <= k < i implies #[trigger] rest[k] == before[k] by {}
            let t = views(v@.take(i as int + 1));
            assert forall|a: int, b: int| 0 <= a < b < t.len() implies name_le(t[a], t[b]) by {
                // Elements below j are not after x; elements from j on are not before it.
                let xs = x@;
                if a < j && b < j {
                    assert(t[a] == s[a] && t[b] == s[b]);
                } else if a < j && b == j {
                    assert(t[a] == s[a] && t[b] == xs);
                    lemma_name_lt_total(s[a], xs);
                } else if a < j && b > j {
                    assert(t[a] == s[a] && t[b] == s[b - 1]);
                } else if a == j {
                    assert(t[a] == xs && t[b] == s[b - 1]);
                    assert(j < i);
                    assert(name_lt(xs, rest[j as int]@));
                    assert(s[j as int] == rest[j as int]@);
                    if j < b - 1 {
                        assert(name_le(s[j as int], s[b - 1]));
                        if name_lt(s[j as int], s[b - 1]) {
                            lemma_name_lt_transitive(xs, s[j as int], s[b - 1]);
                        }
                    }
                } else {
                    assert(t[a] == s[a - 1] && t[b] == s[b - 1]);
                }
            }
            broadcast use vstd::multiset::group_multiset_axioms, vstd::seq_lib::to_multiset_contains;

            assert(before.contains(x)) by {
                assert(before[i as int] == x);
            }
            assert(before.to_multiset().count(x) > 0);
            vstd::seq_lib::to_multiset_remove(before, i as int);
            assert(rest.to_multiset() == before.to_multiset().remove(x));
            assert(v@ == rest.insert(j as int, x));
            vstd::seq_lib::to_multiset_insert(rest, j as int, x);
            assert(v@.to_multiset() == rest.to_multiset().insert(x));
            assert(v@.to_multiset() =~= before.to_multiset());
        }
    }
    assert(v@.take(n as int) =~= v@);
    v
}

} // verus!
