use elb_logs::partition::partition;
use elb_logs::pipeline::{analyze_files, analyze_line, analyze_lines, merge, run};
use elb_logs::record::{
    opt_box_str_from_empty_value, opt_box_str_from_negative_value,
    opt_box_str_from_possible_hyphen_value, AccessLog, FIELD_COUNT,
};
use elb_logs::tokenizer::{match_columnar_value, tokenize};

const EXAMPLE: &str = "h2 2023-01-01T00:00:00Z my-elb 10.0.0.1:1234 10.0.0.2:80 0.001 -1 0.002 200 - 34 366 \"GET https://x/ HTTP/2.0\" \"curl/7.1\" TLS_X ECDHEv2 arn:x trace-1 x.com arn:y 1 2023-01-01T00:00:00.000000Z \"forward\" - - 10.0.0.2:80 200 - - -";

fn strings(v: &[&str]) -> Vec<String> {
    v.iter().map(|s| s.to_string()).collect()
}

fn line_with_status(status: &str, trace: &str) -> String {
    format!(
        "http 2024-05-05T10:00:00Z app 1.2.3.4:5 6.7.8.9:80 0.1 0.2 0.3 502 {status} 10 20 \"GET http://h/ HTTP/1.1\" \"agent x\" - - arn:tg {trace} h.com - 0 2024-05-05T10:00:00Z \"forward\" - - 6.7.8.9:80 - - - conn-1 "
    )
}

#[test]
fn end_to_end_example() {
    let (rec, overflow) = analyze_line(EXAMPLE);
    assert!(!overflow);
    let rec = rec.expect("a record without target status is kept");
    assert_eq!(rec.log_type, "h2");
    assert_eq!(rec.target_processing_time, None);
    assert_eq!(rec.target_status_code, None);
    assert_eq!(rec.request_processing_time, "0.001");
    assert_eq!(rec.response_processing_time, Some("0.002".to_string()));
    assert_eq!(rec.elb_status_code, "200");
    assert_eq!(rec.request_line, "GET https://x/ HTTP/2.0");
    assert_eq!(rec.user_agent, "curl/7.1");
    assert_eq!(rec.actions_executed, "forward");
    assert_eq!(rec.redirect_url, None);
    assert_eq!(rec.error_reason, None);
    assert_eq!(rec.target_status_code_list, "200");
    assert_eq!(rec.classification, None);
    assert_eq!(rec.classification_reason, None);
    // The last field has no terminator, so it is not read and the trace id stays absent.
    assert_eq!(rec.conn_trace_id, None);
    let out = analyze_lines(&vec![EXAMPLE.to_string()]);
    assert_eq!(out, vec![rec]);
}

#[test]
fn tokenize_plain_fields() {
    assert_eq!(tokenize("a b c ", 30), (strings(&["a", "b", "c"]), false));
}

#[test]
fn tokenize_drops_unterminated_tail() {
    assert_eq!(tokenize("a b c", 30), (strings(&["a", "b"]), false));
    assert_eq!(tokenize("abc", 30), (strings(&[]), false));
    assert_eq!(tokenize("a \"b c", 30), (strings(&["a"]), false));
}

#[test]
fn tokenize_empty_line() {
    assert_eq!(tokenize("", 30), (strings(&[]), false));
}

#[test]
fn tokenize_consecutive_spaces_give_empty_fields() {
    assert_eq!(tokenize("a  b ", 30), (strings(&["a", "", "b"]), false));
    assert_eq!(tokenize(" ", 30), (strings(&[""]), false));
}

#[test]
fn tokenize_quoted_field_with_spaces() {
    let (tokens, overflow) = tokenize("\"GET https://x/ HTTP/2.0\" x ", 30);
    assert_eq!(tokens, strings(&["GET https://x/ HTTP/2.0", "x"]));
    assert!(!overflow);
    assert_eq!(tokenize("\"\" y ", 30), (strings(&["", "y"]), false));
}

#[test]
fn tokenize_quoted_field_runs_to_quote_space() {
    assert_eq!(tokenize("\"a\"b c\" d ", 30), (strings(&["a\"b c", "d"]), false));
    assert_eq!(tokenize("\"ab\"\" d ", 30), (strings(&["ab\"", "d"]), false));
}

#[test]
fn tokenize_non_ascii() {
    assert_eq!(tokenize("é \"ü ö\" ", 30), (strings(&["é", "ü ö"]), false));
}

#[test]
fn tokenize_overflow_is_flagged() {
    let line: String = (0..31).map(|i| format!("f{i} ")).collect();
    let (tokens, overflow) = tokenize(&line, 30);
    assert_eq!(tokens.len(), 30);
    assert_eq!(tokens[29], "f29");
    assert!(overflow);
    let line: String = (0..30).map(|i| format!("f{i} ")).collect();
    let (tokens, overflow) = tokenize(&line, 30);
    assert_eq!(tokens.len(), 30);
    assert!(!overflow);
    assert_eq!(tokenize("a b ", 0), (strings(&[]), true));
}

#[test]
fn match_columnar_value_bounds() {
    let chars: Vec<char> = "ab \"c d\" e".chars().collect();
    assert_eq!(match_columnar_value(&chars, 0), Some((0, 2, 3)));
    assert_eq!(match_columnar_value(&chars, 3), Some((4, 7, 9)));
    assert_eq!(match_columnar_value(&chars, 9), None);
    assert_eq!(match_columnar_value(&chars, chars.len()), None);
}

#[test]
fn hyphen_sentinel() {
    assert_eq!(opt_box_str_from_possible_hyphen_value("-"), None);
    assert_eq!(opt_box_str_from_possible_hyphen_value("x"), Some("x".to_string()));
    assert_eq!(opt_box_str_from_possible_hyphen_value("--"), Some("--".to_string()));
    assert_eq!(opt_box_str_from_possible_hyphen_value(""), Some(String::new()));
}

#[test]
fn negative_sentinel() {
    assert_eq!(opt_box_str_from_negative_value("-1"), None);
    assert_eq!(opt_box_str_from_negative_value("-"), Some("-".to_string()));
    assert_eq!(opt_box_str_from_negative_value("1"), Some("1".to_string()));
    assert_eq!(opt_box_str_from_negative_value("-10"), Some("-10".to_string()));
}

#[test]
fn empty_sentinel() {
    assert_eq!(opt_box_str_from_empty_value(""), None);
    assert_eq!(opt_box_str_from_empty_value("a"), Some("a".to_string()));
    assert_eq!(opt_box_str_from_empty_value("-"), Some("-".to_string()));
}

#[test]
fn short_token_sequence_fills_empty_fields() {
    let rec = AccessLog::from_tokens(&strings(&["http", "t"]));
    assert_eq!(rec.log_type, "http");
    assert_eq!(rec.time, "t");
    assert_eq!(rec.elb, "");
    assert_eq!(rec.target_processing_time, Some(String::new()));
    assert_eq!(rec.target_status_code, Some(String::new()));
    assert_eq!(rec.conn_trace_id, None);
    assert!(!rec.is_of_interest());
}

#[test]
fn thirty_fields_read_back_verbatim() {
    let values: Vec<String> = (0..FIELD_COUNT).map(|i| format!("v {i}")).collect();
    let line: String = values.iter().map(|v| format!("\"{v}\" ")).collect();
    let (tokens, overflow) = tokenize(&line, FIELD_COUNT);
    assert!(!overflow);
    assert_eq!(tokens, values);
    let rec = AccessLog::from_tokens(&tokens);
    assert_eq!(rec.log_type, "v 0");
    assert_eq!(rec.target_processing_time, Some("v 6".to_string()));
    assert_eq!(rec.target_status_code, Some("v 9".to_string()));
    assert_eq!(rec.target_status_code_list, "v 26");
    assert_eq!(rec.conn_trace_id, Some("v 29".to_string()));
}

#[test]
fn placeholders_become_absent() {
    let mut values: Vec<&str> = vec!["x"; FIELD_COUNT];
    for i in [6, 7] {
        values[i] = "-1";
    }
    for i in [9, 23, 24, 27, 28] {
        values[i] = "-";
    }
    values[5] = "-1";
    values[8] = "-";
    values[26] = "-";
    let line: String = values.iter().map(|v| format!("{v} ")).collect::<String>() + "\"\" ";
    let (tokens, overflow) = tokenize(&line, FIELD_COUNT);
    assert!(overflow);
    let rec = AccessLog::from_tokens(&tokens);
    assert_eq!(rec.target_processing_time, None);
    assert_eq!(rec.response_processing_time, None);
    assert_eq!(rec.target_status_code, None);
    assert_eq!(rec.redirect_url, None);
    assert_eq!(rec.error_reason, None);
    assert_eq!(rec.classification, None);
    assert_eq!(rec.classification_reason, None);
    assert_eq!(rec.conn_trace_id, Some("x".to_string()));
    assert_eq!(rec.request_processing_time, "-1");
    assert_eq!(rec.elb_status_code, "-");
    assert_eq!(rec.target_status_code_list, "-");
}

#[test]
fn filter_keeps_only_missing_target_status() {
    let (kept, _) = analyze_line(&line_with_status("-", "a"));
    assert!(kept.is_some());
    let (dropped, _) = analyze_line(&line_with_status("200", "b"));
    assert!(dropped.is_none());
    let (quoted, _) = analyze_line(&line_with_status("\"-\"", "c"));
    assert!(quoted.is_some());
    let (dropped, _) = analyze_line(&line_with_status("\"\"", "d"));
    assert!(dropped.is_none());
}

#[test]
fn analyze_lines_keeps_order() {
    let lines = vec![
        line_with_status("-", "a"),
        line_with_status("200", "b"),
        String::new(),
        line_with_status("-", "c"),
    ];
    let out = analyze_lines(&lines);
    let traces: Vec<&str> = out.iter().map(|r| r.trace_id.as_str()).collect();
    assert_eq!(traces, vec!["a", "c"]);
    assert_eq!(out[0].conn_trace_id, Some("conn-1".to_string()));
    assert_eq!(out[0].user_agent, "agent x");
}

#[test]
fn partition_even_split() {
    let parts = partition((0..9).collect::<Vec<u32>>(), 3);
    assert_eq!(parts, vec![vec![0, 1, 2], vec![3, 4, 5], vec![6, 7, 8]]);
}

#[test]
fn partition_keeps_remainder_in_last_batch() {
    let parts = partition((0..10).collect::<Vec<u32>>(), 3);
    assert_eq!(parts, vec![vec![0, 1, 2], vec![3, 4, 5], vec![6, 7, 8, 9]]);
    let parts = partition(vec![1u32, 2], 5);
    assert_eq!(parts, vec![vec![], vec![], vec![], vec![], vec![1, 2]]);
}

#[test]
fn partition_edge_cases() {
    let parts = partition(Vec::<u32>::new(), 4);
    assert_eq!(parts, vec![Vec::<u32>::new(); 4]);
    let parts = partition(vec![7u32, 8, 9], 1);
    assert_eq!(parts, vec![vec![7, 8, 9]]);
}

#[test]
fn merge_concatenates_in_order() {
    let a = analyze_lines(&vec![line_with_status("-", "a")]);
    let b = analyze_lines(&vec![line_with_status("-", "b"), line_with_status("-", "c")]);
    let merged = merge(vec![a.clone(), Vec::new(), b.clone()]);
    let traces: Vec<&str> = merged.iter().map(|r| r.trace_id.as_str()).collect();
    assert_eq!(traces, vec!["a", "b", "c"]);
    assert!(merge(Vec::new()).is_empty());
}

fn sample_files() -> Vec<Vec<String>> {
    vec![
        vec![line_with_status("-", "f0a"), line_with_status("404", "f0b")],
        vec![],
        vec![line_with_status("-", "f2a"), line_with_status("-", "f2b")],
        vec![line_with_status("200", "f3a")],
        vec![line_with_status("-", "f4a"), EXAMPLE.to_string()],
    ]
}

#[test]
fn analyze_files_in_file_order() {
    let out = analyze_files(&sample_files());
    let traces: Vec<&str> = out.iter().map(|r| r.trace_id.as_str()).collect();
    assert_eq!(traces, vec!["f0a", "f2a", "f2b", "f4a", "trace-1"]);
}

#[test]
fn worker_count_does_not_change_result() {
    let one = run(sample_files(), 1);
    assert_eq!(one.len(), 5);
    for workers in 2..8 {
        assert_eq!(run(sample_files(), workers), one);
    }
}
