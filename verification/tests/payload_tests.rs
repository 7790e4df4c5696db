use woerterbuch::payload::{
    decode_content, decode_payload, digit_runs_ok, is_json_response, split_lines, PayloadError,
    MAX_DIGIT_RUN,
};

fn strings(pieces: Vec<Vec<char>>) -> Vec<String> {
    pieces.into_iter().map(|p| p.into_iter().collect()).collect()
}

#[test]
fn the_content_type_tells_json_from_the_file() {
    assert!(is_json_response(Some("application/json")));
    assert!(is_json_response(Some("application/json; charset=utf-8")));
    assert!(!is_json_response(Some("application/vnd.github.v3.raw")));
    assert!(!is_json_response(Some("Application/JSON")));
    assert!(!is_json_response(Some("")));
    assert!(!is_json_response(None));
}

#[test]
fn a_text_splits_at_its_line_feeds() {
    let split = |s: &str| strings(split_lines(&s.chars().collect()));
    assert_eq!(split(""), vec![""]);
    assert_eq!(split("ab"), vec!["ab"]);
    assert_eq!(split("ab\ncd"), vec!["ab", "cd"]);
    assert_eq!(split("ab\n"), vec!["ab", ""]);
    assert_eq!(split("\nab"), vec!["", "ab"]);
    assert_eq!(split("a\n\nb"), vec!["a", "", "b"]);
    assert_eq!(split("\n"), vec!["", ""]);
    for s in ["", "ab", "ab\ncd", "ab\n", "\n\n", "a\r\nb"] {
        let expected: Vec<String> = s.split('\n').map(|p| p.to_string()).collect();
        assert_eq!(split(s), expected);
    }
}

#[test]
fn lines_of_base64_become_bytes() {
    assert_eq!(decode_content("aGVsbG8="), Ok(b"hello".to_vec()));
    assert_eq!(decode_content("aGVs\nbG8="), Ok(b"hello".to_vec()));
    assert_eq!(decode_content("aGVs\nbG8=\n"), Ok(b"hello".to_vec()));
    assert_eq!(decode_content(""), Ok(Vec::new()));
    assert_eq!(decode_content("\n\n"), Ok(Vec::new()));
    assert_eq!(decode_content("AAEC/w=="), Ok(vec![0, 1, 2, 255]));
    assert_eq!(decode_content("aGVsbG8gd29ybGR+Cg=="), Ok(b"hello world~\n".to_vec()));
}

#[test]
fn a_bad_line_fails_the_content() {
    assert_eq!(decode_content("aGVsbG8"), Err(PayloadError::BadBase64));
    assert_eq!(decode_content("aGVs\n!!!!\nbG8="), Err(PayloadError::BadBase64));
    assert_eq!(decode_content("aGVs bG8="), Err(PayloadError::BadBase64));
    assert_eq!(decode_content("aGVs\r\nbG8="), Err(PayloadError::BadBase64));
    assert_eq!(decode_content("aGVsbG8=\nx"), Err(PayloadError::BadBase64));
}

#[test]
fn a_json_answer_is_unpacked() {
    let text = "{\"name\":\"woerterbuch.xlsx\",\"content\":\"aGVs\\nbG8=\\n\",\"size\":5}";
    assert_eq!(decode_payload(text), Ok(b"hello".to_vec()));
    assert_eq!(decode_payload("{\"content\":\"\"}"), Ok(Vec::new()));
}

#[test]
fn a_json_answer_fails_for_each_reason() {
    assert_eq!(decode_payload("not json"), Err(PayloadError::NotJson));
    assert_eq!(decode_payload(""), Err(PayloadError::NotJson));
    assert_eq!(decode_payload("{\"content\":"), Err(PayloadError::NotJson));
    assert_eq!(decode_payload("{\"name\":\"x\"}"), Err(PayloadError::NoContent));
    assert_eq!(decode_payload("{\"content\":5}"), Err(PayloadError::NoContent));
    assert_eq!(decode_payload("{\"content\":null}"), Err(PayloadError::NoContent));
    assert_eq!(decode_payload("[1,2]"), Err(PayloadError::NoContent));
    assert_eq!(decode_payload("\"aGVsbG8=\""), Err(PayloadError::NoContent));
    assert_eq!(decode_payload("{\"content\":\"a\"}"), Err(PayloadError::BadBase64));
}

#[test]
fn a_run_of_digits_beyond_the_limit_is_refused() {
    assert_eq!(MAX_DIGIT_RUN, 32768);
    let chars = |s: &str| s.chars().collect::<Vec<char>>();
    assert!(digit_runs_ok(&chars("")));
    assert!(digit_runs_ok(&chars("{\"size\":12345}")));
    assert!(digit_runs_ok(&chars(&"7".repeat(32768))));
    assert!(!digit_runs_ok(&chars(&"7".repeat(32769))));
    let broken = format!("{}x{}", "1".repeat(32768), "2".repeat(32768));
    assert!(digit_runs_ok(&chars(&broken)));
    let late = format!("ab {} cd {}", "12", "0".repeat(40000));
    assert!(!digit_runs_ok(&chars(&late)));
}

#[test]
fn a_number_with_a_long_fraction_does_not_reach_the_parser() {
    let zeros = format!("0.{}", "0".repeat(40000));
    assert_eq!(decode_payload(&zeros), Err(PayloadError::TooManyDigits));
    let inside = format!("{{\"content\":\"\",\"size\":0.{}}}", "0".repeat(32769));
    assert_eq!(decode_payload(&inside), Err(PayloadError::TooManyDigits));
    let within = format!("{{\"content\":\"aGVsbG8=\",\"size\":0.{}}}", "0".repeat(32768));
    assert_eq!(decode_payload(&within), Ok(b"hello".to_vec()));
    let many = format!("{{\"content\":\"aGVsbG8=\",\"size\":0.{}1}}", "0".repeat(32767));
    assert_eq!(decode_payload(&many), Ok(b"hello".to_vec()));
}
