use kopy::fetch::{checked_url, excerpt, is_success, request_target, response_outcome, FailureKind};
use kopy::errors::CliError;
use kopy::har::{write_table, NameValueEntry};
use kopy::json_path::parse_path;
use kopy::output::{FileWriter, StdOutWriter, Writer};
use kopy::progress::{progress_visible, ProgressBarType};
use kopy::topic_urls::TopicUrlElement;

#[test]
fn leading_dot_will_be_ignored() {
    let split: Vec<String> = parse_path(".abc.123");

    assert_eq!(2, split.len());
}

#[test]
fn path_pieces() {
    assert_eq!(parse_path(".abc.123"), vec!["abc".to_string(), "123".to_string()]);
    assert_eq!(parse_path("a.b."), vec!["a".to_string(), "b".to_string()]);
    assert_eq!(parse_path("."), Vec::<String>::new());
    assert_eq!(parse_path("a..b"), vec!["a".to_string(), "".to_string(), "b".to_string()]);
}

#[test]
fn cli_error_text() {
    let e = CliError::new("Unable to get NSQ Host", 2);
    assert_eq!(e.code, 2);
    assert_eq!(e.message(), "Unable to get NSQ Host");
    assert_eq!(e.to_string(), "Error! Unable to get NSQ Host");
}

#[test]
fn markdown_table() {
    let text = write_table(vec![
        NameValueEntry { name: "Accept".to_string(), value: "*/*".to_string() },
        NameValueEntry { name: "Host".to_string(), value: "example.com".to_string() },
    ]);
    assert_eq!(text, "\n|Name|Value|\n|:----|:---|\n|`Accept`|`*/*`|\n|`Host`|`example.com`|\n");
    assert_eq!(write_table(vec![]), "\n|Name|Value|\n|:----|:---|\n");
}

#[test]
fn topic_urls_form_a_set() {
    let mut e = TopicUrlElement::new("t".to_string(), vec!["b".to_string(), "a".to_string(), "b".to_string()]);
    assert_eq!(e.urls, vec!["a".to_string(), "b".to_string()]);
    e.add_urls(vec!["c".to_string(), "a".to_string()]);
    assert_eq!(e.urls, vec!["a".to_string(), "b".to_string(), "c".to_string()]);
    assert_eq!(e.name, "t");
}

#[test]
fn progress_bar_kinds() {
    let sized = ProgressBarType::SizedProgressBar(7, "{bar}");
    assert_eq!(sized.template(), "{bar}");
    assert_eq!(sized.size(), Some(7));
    let unsized_bar = ProgressBarType::UnsizedProgressBar("{spinner}");
    assert_eq!(unsized_bar.size(), None);
    assert!(progress_visible(true, 0));
    assert!(!progress_visible(false, 0));
    assert!(!progress_visible(true, 1));
}

#[test]
fn writers() {
    let w = FileWriter::new("out.md".to_string());
    assert_eq!(w.path, "out.md");
    let all = vec![Writer::StdOut(StdOutWriter::new()), Writer::File(w)];
    assert_eq!(all.len(), 2);
}

#[test]
fn response_outcomes() {
    assert!(is_success(200));
    assert!(is_success(204));
    assert!(!is_success(404));
    assert!(!is_success(199));
    match response_outcome("http://h/stats", 200, "{}".to_string()) {
        Ok(body) => assert_eq!(body, "{}"),
        Err(_) => panic!("a 2xx response is a success"),
    }
    let long = "é".repeat(600);
    match response_outcome("http://h/stats", 500, long.clone()) {
        Ok(_) => panic!("a 500 response is a failure"),
        Err(f) => {
            assert!(matches!(f.kind, FailureKind::HttpError));
            assert_eq!(f.status, Some(500));
            assert_eq!(f.url, "http://h/stats");
            assert_eq!(f.diagnostic.len(), 1024);
            assert!(long.starts_with(&f.diagnostic));
        }
    }
    assert_eq!(excerpt("aé", 2), "a");
    assert_eq!(excerpt("aé", 3), "aé");
    assert_eq!(excerpt("abc", 10), "abc");
}

#[test]
fn urls_are_checked_before_a_request() {
    match checked_url("http://broker:4151/stats?format=json") {
        Ok(url) => assert_eq!(url, "http://broker:4151/stats?format=json"),
        Err(_) => panic!("a well-formed URL passes"),
    }
    match checked_url("broker without scheme") {
        Ok(_) => panic!("a relative text is no URL"),
        Err(f) => {
            assert!(matches!(f.kind, FailureKind::Transport));
            assert_eq!(f.url, "broker without scheme");
        }
    }
    match request_target("x", false) {
        Ok(_) => panic!("a refused URL is a failure"),
        Err(f) => {
            assert_eq!(f.diagnostic, "invalid URL");
            assert_eq!(f.status, None);
        }
    }
    assert_eq!(request_target("http://h", true).ok(), Some("http://h".to_string()));
}
