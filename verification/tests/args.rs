use ctow::convert_arg;
use ctow::Errors;

#[test]
fn test_convert_args() {
    // in this current format, ctow does not support -<option><var> (e.g. -bLOAD-COOKIE) there
    // has to be a space in between option and var
    let test_args = vec![
        "-b LOAD-COOKIE",
        "-c SAVE-COOKIE",
        "-d POST-DATA",
        "-e REFERER",
        "-g",
        "-k",
        "-m 9999",
        "-o OUTPUT",
        "-r 2-3",
        "-s",
        "-u USER",
        "-z MODIFIED",
        "-A AGENT",
        "-C 2",
        "-E CERT",
        "-H User-Agent: Example",
        "-I",
        "-T BODY",
        "-X METHOD",
        "--compressed",
        "--connect-timeout 5",
        "--retry 3",
    ];
    let result_args = vec![
        "--load-cookies=LOAD-COOKIE",
        "--save-cookies=SAVE-COOKIE",
        "--post-data=POST-DATA",
        "--header=\"Referer: REFERER\"",
        "--no-glob",
        "--no-check-certificate",
        "--timeout=9999",
        "--output-document=OUTPUT",
        "--header=\"Range: bytes=2-3\"",
        "--quiet",
        "--user=USER",
        "--header=\"If-Modified-Since: MODIFIED\"",
        "--header=\"User-Agent: AGENT\"",
        "--start-pos=2",
        "--certificate=CERT",
        "--header 'User-Agent: Example'",
        "--method=HEAD",
        "--method=PUT --body-file=BODY",
        "--method=METHOD",
        "--compression=auto",
        "--timeout=5",
        "--tries=3",
    ];

    for (i, test_arg) in test_args.iter().enumerate() {
        assert_eq!(convert_arg(test_arg), Ok(result_args[i].to_string()));
    }
}

#[test]
fn header_value_backslashes_are_doubled() {
    assert_eq!(
        convert_arg("-H a\\b"),
        Ok("--header 'a\\\\b'".to_string())
    );
}

#[test]
fn url_placeholder_passes_through() {
    assert_eq!(convert_arg("<url>"), Ok("<url>".to_string()));
    assert_eq!(convert_arg("<url> extra"), Ok("<url>".to_string()));
}

#[test]
fn unknown_flag_is_arg_conversion() {
    assert_eq!(
        convert_arg("--unknown-flag value"),
        Err(Errors::ArgConversion("--unknown-flag value".to_string()))
    );
}

#[test]
fn bare_flag_keeps_trailing_value() {
    assert_eq!(convert_arg("-g pattern"), Ok("--no-glob pattern".to_string()));
}

#[test]
fn value_flag_without_value_is_unchanged() {
    assert_eq!(convert_arg("-b"), Ok("-b".to_string()));
}

#[test]
fn error_messages_name_their_stage() {
    assert_eq!(
        Errors::ArgConversion("-Q".to_string()).message(),
        "Conversion: -Q".to_string()
    );
    assert_eq!(
        Errors::InvalidArgument("word".to_string()).message(),
        "Invalid Argument: word".to_string()
    );
    assert_eq!(
        Errors::UnrecognisedCommand("fetch".to_string()).message(),
        "Unrecognized command: fetch".to_string()
    );
}
