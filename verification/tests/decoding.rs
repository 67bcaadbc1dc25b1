use tmsocial::decode::decode_line;
use tmsocial::json::parse_int_text;
use tmsocial::messages::IOISolutionSubtaskResult;
use tmsocial::messages::State;
use tmsocial::messages::TaskMakerMessage;
use tmsocial::num::parse_number;

#[test]
fn numbers_read_in_thousandths() {
    assert_eq!(parse_number("87.5"), Some((false, 87500)));
    assert_eq!(parse_number("0.002"), Some((false, 2)));
    assert_eq!(parse_number("0"), Some((false, 0)));
    assert_eq!(parse_number("100"), Some((false, 100000)));
    assert_eq!(parse_number("-3"), Some((true, 3000)));
    assert_eq!(parse_number("1.0"), Some((false, 1000)));
    // fractions finer than a thousandth are truncated
    assert_eq!(parse_number("0.0009"), Some((false, 0)));
    assert_eq!(parse_number("1.2345"), Some((false, 1234)));
}

#[test]
fn numbers_with_exponents() {
    assert_eq!(parse_number("1e3"), Some((false, 1000000)));
    assert_eq!(parse_number("1e-7"), Some((false, 0)));
    assert_eq!(parse_number("1.5e1"), Some((false, 15000)));
    assert_eq!(parse_number("2E+2"), Some((false, 200000)));
}

#[test]
fn malformed_numbers_are_rejected() {
    assert_eq!(parse_number(""), None);
    assert_eq!(parse_number("abc"), None);
    assert_eq!(parse_number("12."), None);
    assert_eq!(parse_number("--1"), None);
    assert_eq!(parse_number("1e"), None);
    // more than fifteen mantissa digits
    assert_eq!(parse_number("1234567890123456"), None);
    // out of range
    assert_eq!(parse_number("1e14"), None);
}

#[test]
fn integer_texts() {
    assert_eq!(parse_int_text("42"), Some(42));
    assert_eq!(parse_int_text("-7"), Some(-7));
    assert_eq!(parse_int_text("0"), Some(0));
    assert_eq!(parse_int_text("1.5"), None);
}

#[test]
fn compilation_line_decodes() {
    let line = r#"{"action":"compilation","state":"SUCCESS","data":{"file":"sol.cpp","path":"/work/sol.cpp"}}"#;
    match decode_line(line) {
        TaskMakerMessage::Compilation(c) => {
            assert_eq!(c.state, State::Success);
            assert_eq!(c.data.file, "sol.cpp");
            assert_eq!(c.data.path, "/work/sol.cpp");
        }
        _ => panic!("expected a compilation message"),
    }
}

#[test]
fn result_line_decodes() {
    let line = r#"{"action":"result","solutions":{"sol.cpp":{"status":"DONE","compilation":{"stderr":"warned","result":{"status":"SUCCESS"}}}},"testing":{"sol.cpp":{"score":87.5,"subtask_scores":{"0":50.0,"1":37.5},"subtask_results":{"0":"ACCEPTED","1":"PARTIAL"},"testcase_results":{"0":{"0":{"status":"ACCEPTED","score":1.0,"message":"ok","result":[{"status":"SUCCESS","resources":{"cpu_time":0.5,"sys_time":0.25,"wall_time":0.8,"memory":1024}}]}}}}}}"#;
    match decode_line(line) {
        TaskMakerMessage::IOIResult(r) => {
            assert_eq!(r.solutions.len(), 1);
            assert_eq!(r.solutions[0].0, "sol.cpp");
            assert_eq!(r.solutions[0].1.stderr, "warned");
            let t = &r.testing[0].1;
            assert_eq!(t.score, 87500);
            assert_eq!(t.subtask_scores, vec![(0, 50000), (1, 37500)]);
            assert_eq!(
                t.subtask_results,
                vec![
                    (0, IOISolutionSubtaskResult::Accepted),
                    (1, IOISolutionSubtaskResult::Partial)
                ]
            );
            let tc = &t.testcase_results[0].1[0].1;
            assert_eq!(tc.score, 1000);
            assert_eq!(tc.message, "ok");
            assert_eq!(tc.result[0].resources.cpu_time, 500);
            assert_eq!(tc.result[0].resources.sys_time, 250);
            assert_eq!(tc.result[0].resources.memory, 1024);
        }
        _ => panic!("expected a terminal result message"),
    }
}

#[test]
fn ignored_and_malformed_lines() {
    assert!(matches!(
        decode_line(r#"{"action":"warning","state":"WARNING","data":{"message":"x"}}"#),
        TaskMakerMessage::Other
    ));
    assert!(matches!(
        decode_line(r#"{"action":"terry-result"}"#),
        TaskMakerMessage::TerryResult
    ));
    assert!(matches!(
        decode_line(r#"{"action":"no-such-tag"}"#),
        TaskMakerMessage::Malformed
    ));
    assert!(matches!(decode_line("not json at all"), TaskMakerMessage::Malformed));
    assert!(matches!(decode_line(r#"{"state":"START"}"#), TaskMakerMessage::Malformed));
    // a known tag whose acted-upon payload is not of the documented shape
    assert!(matches!(
        decode_line(r#"{"action":"compilation","state":"NOPE","data":{"file":"a","path":"b"}}"#),
        TaskMakerMessage::Malformed
    ));
}

#[test]
fn magnitude_boundary() {
    // the largest magnitude in range, and the first one out of it
    assert_eq!(parse_number("999999999999.999"), Some((false, 999999999999999)));
    assert_eq!(parse_number("1000000000000"), None);
}
