use saga_seeker_html2md::report::{
    append_file_result_log, completion_message, file_error, file_stem, format_duration,
    format_system_time, is_html_file, output_file_name, run_footer_lines, run_header_lines,
    run_summary, sort_file_names, EpochOffset, FileResult, RunSummary, StageTiming,
};
use saga_seeker_html2md::text::join_strings;

#[test]
fn html_file_names() {
    assert!(is_html_file("a.HTML"));
    assert!(is_html_file("sheet.htm"));
    assert!(!is_html_file(".html"));
    assert!(!is_html_file("a.txt"));
    assert!(!is_html_file("html"));
    assert!(!is_html_file("a.html.bak"));
}

#[test]
fn file_stems() {
    assert_eq!(file_stem("a.b.html").as_deref(), Some("a.b"));
    assert_eq!(file_stem(".bashrc").as_deref(), Some(".bashrc"));
    assert_eq!(file_stem("noext").as_deref(), Some("noext"));
    assert_eq!(file_stem(""), None);
    assert_eq!(output_file_name("sheet"), "sheet.md");
}

#[test]
fn durations_and_times() {
    assert_eq!(format_duration(1234), "1234 ms");
    assert_eq!(format_duration(0), "0 ms");
    assert_eq!(format_duration(u128::MAX), "340282366920938463463374607431768211455 ms");
    assert_eq!(format_system_time(&EpochOffset::After(5)), "5 seconds since Unix epoch");
    assert_eq!(format_system_time(&EpochOffset::Before(12)), "before Unix epoch by 12 ms");
}

#[test]
fn completion_messages() {
    assert_eq!(
        completion_message(&RunSummary { total: 0, success: 0, failure: 0 }),
        "完了: 変換対象のHTMLファイルはありません。input フォルダに .html または .htm を入れてください。"
    );
    assert_eq!(
        completion_message(&RunSummary { total: 3, success: 2, failure: 1 }),
        "完了: 変換対象 3件 / 成功 2件 / 失敗 1件。詳細は log.txt を確認してください。"
    );
}

#[test]
fn file_result_log_lines() {
    let ok = FileResult {
        input: "in/a.html".to_string(),
        output: Some("out/a.md".to_string()),
        error: None,
        timings: vec![StageTiming { name: "ファイル読み込み".to_string(), millis: 3 }],
    };
    let mut log = Vec::new();
    append_file_result_log(&mut log, &ok);
    assert_eq!(
        log,
        vec!["", "[OK] in/a.html", "入力ファイル名: in/a.html", "出力ファイル名: out/a.md", "ファイル読み込み: 3 ms"]
    );
    let ng = file_error("in/b.html".to_string(), None, "壊れている".to_string(), Vec::new(), 7);
    let mut log = Vec::new();
    append_file_result_log(&mut log, &ng);
    assert_eq!(
        log,
        vec![
            "",
            "[NG] in/b.html",
            "入力ファイル名: in/b.html",
            "出力ファイル名: (not created)",
            "エラー詳細: 壊れている",
            "ファイル合計時間: 7 ms"
        ]
    );
    let s = run_summary(&[ok, ng]);
    assert_eq!((s.total, s.success, s.failure), (2, 1, 1));
}

#[test]
fn run_log_lines() {
    let header = run_header_lines("1.2.0", &EpochOffset::After(10), "/d", "/d/input", "/d/output", 2, 5);
    assert_eq!(
        header,
        vec![
            "ツール名: saga-seeker-html2md",
            "バージョン: 1.2.0",
            "実行日時: 10 seconds since Unix epoch",
            "実行ディレクトリ: /d",
            "input フォルダ: /d/input",
            "output フォルダ: /d/output",
            "変換対象ファイル数: 2",
            "ファイル一覧収集: 5 ms"
        ]
    );
    let footer = run_footer_lines(&RunSummary { total: 2, success: 2, failure: 0 }, 40);
    assert_eq!(footer, vec!["", "合計件数: 2", "成功件数: 2", "失敗件数: 0", "合計時間: 40 ms"]);
    assert_eq!(join_strings(&footer, "\n"), "\n合計件数: 2\n成功件数: 2\n失敗件数: 0\n合計時間: 40 ms");
}

#[test]
fn file_names_sorted_by_code_point() {
    let names = vec!["b.html".to_string(), "a.html".to_string(), "B.html".to_string(), "あ.htm".to_string()];
    assert_eq!(sort_file_names(names), vec!["B.html", "a.html", "b.html", "あ.htm"]);
}
