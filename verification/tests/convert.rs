use ctow::convert;
use ctow::convert_arg;
use ctow::Errors;

#[test]
fn test_convert() {
    // tests the conversion of a whole command
    let test_curl1 = "curl http://example.com".to_string();
    assert_eq!(
        convert(&[test_curl1]),
        Ok("wget 'http://example.com'".into())
    );
}

#[test]
fn test_convert_url() {
    let test_str1 = "'http";

    assert_eq!(convert_arg(test_str1), Ok("'http".into()));
}

#[test]
fn header_and_compression_scenario() {
    let fragments = vec![
        "-H Authorization: Bearer abc".to_string(),
        "--compressed".to_string(),
        "http://api.test/x".to_string(),
    ];
    assert_eq!(
        convert(&fragments),
        Ok("wget --header 'Authorization: Bearer abc' --compression=auto 'http://api.test/x'"
            .into())
    );
}

#[test]
fn last_url_wins() {
    let input = "curl http://first.example http://second.example -s".to_string();
    assert_eq!(
        convert(&[input]),
        Ok("wget --quiet 'http://second.example'".into())
    );
}

#[test]
fn no_url_keeps_placeholder() {
    assert_eq!(convert(&["-s".to_string()]), Ok("wget --quiet <url>".into()));
}

#[test]
fn multiword_value_stays_one_argument() {
    let input = "curl -H User-Agent: Example http://example.com".to_string();
    assert_eq!(
        convert(&[input]),
        Ok("wget --header 'User-Agent: Example' 'http://example.com'".into())
    );
}

#[test]
fn value_before_flag_is_invalid() {
    assert_eq!(
        convert(&["foo -s".to_string()]),
        Err(Errors::InvalidArgument("foo".to_string()))
    );
}

#[test]
fn empty_input_is_invalid() {
    assert_eq!(
        convert(&[]),
        Err(Errors::InvalidArgument(String::new()))
    );
}

#[test]
fn double_space_yields_empty_word() {
    // two consecutive spaces split into an empty word, which has no flag
    // to attach to
    assert_eq!(
        convert(&["curl  http://example.com".to_string()]),
        Err(Errors::InvalidArgument(String::new()))
    );
}

#[test]
fn unsupported_flag_aborts_conversion() {
    assert_eq!(
        convert(&["curl -Q foo http://example.com".to_string()]),
        Err(Errors::ArgConversion("-Q foo".to_string()))
    );
}

#[test]
fn tool_name_dropped_anywhere() {
    // the tool's name is discarded wherever it appears, so a value word
    // equal to it vanishes from the argument
    assert_eq!(
        convert(&["-d curl more http://example.com".to_string()]),
        Ok("wget --post-data=more 'http://example.com'".into())
    );
}

#[test]
fn fragments_join_with_single_spaces() {
    let fragments = vec![
        "curl".to_string(),
        "-o".to_string(),
        "out.html".to_string(),
        "http://example.com".to_string(),
    ];
    assert_eq!(
        convert(&fragments),
        Ok("wget --output-document=out.html 'http://example.com'".into())
    );
}
