use fix_path_env::{
    extract_frame, fix, fix_all_vars, fix_vars, is_allowed, parse_records, records_to_import,
    select_records, shell_target, CaptureResult, EnvRecord, EnvTable, Error, Platform, DELIMITER,
};

fn pairs(records: &[EnvRecord]) -> Vec<(String, String)> {
    records.iter().map(|r| (r.key.clone(), r.value.clone())).collect()
}

fn pair(k: &str, v: &str) -> (String, String) {
    (k.to_string(), v.to_string())
}

fn names(vars: &[&str]) -> Vec<String> {
    vars.iter().map(|v| v.to_string()).collect()
}

fn framed(body: &str) -> Vec<u8> {
    format!("welcome banner\n{}{}{}", DELIMITER, body, DELIMITER).into_bytes()
}

fn success(stdout: Vec<u8>) -> Result<CaptureResult, std::io::Error> {
    Ok(CaptureResult { exit_code: Some(0), stdout, stderr: Vec::new() })
}

#[test]
fn frame_between_delimiters_ignores_noise() {
    let frame = extract_frame("noiseDELIMfoo=barDELIMtrailing-noise", "DELIM").unwrap();
    assert_eq!(frame, "foo=bar");
    let records = records_to_import(&frame, &[]);
    assert_eq!(pairs(&records), vec![pair("foo", "bar")]);
}

#[test]
fn frame_ends_at_second_delimiter() {
    let frame = extract_frame("xDyDzD", "D").unwrap();
    assert_eq!(frame, "y");
}

#[test]
fn single_delimiter_is_invalid_output() {
    let text = "noiseDELIMfoo=bar";
    match extract_frame(text, "DELIM") {
        Err(Error::InvalidOutput(t)) => assert_eq!(t, text),
        other => panic!("unexpected: {:?}", other),
    }
}

#[test]
fn missing_delimiter_is_invalid_output() {
    match extract_frame("just noise", "DELIM") {
        Err(Error::InvalidOutput(t)) => assert_eq!(t, "just noise"),
        other => panic!("unexpected: {:?}", other),
    }
}

#[test]
fn adjacent_delimiters_give_empty_frame() {
    assert_eq!(extract_frame("DELIMDELIM", "DELIM").unwrap(), "");
}

#[test]
fn malformed_line_is_skipped() {
    let records = parse_records("A=1\nnot a record\nB=2\n\nC=3");
    assert_eq!(pairs(&records), vec![pair("A", "1"), pair("B", "2"), pair("C", "3")]);
}

#[test]
fn line_splits_at_first_equals() {
    let records = parse_records("OPTS=a=b=c\nEMPTY=\n=lead");
    assert_eq!(
        pairs(&records),
        vec![pair("OPTS", "a=b=c"), pair("EMPTY", ""), pair("", "lead")]
    );
}

#[test]
fn duplicates_are_kept_in_order() {
    let records = parse_records("A=1\nA=2\n");
    assert_eq!(pairs(&records), vec![pair("A", "1"), pair("A", "2")]);
}

#[test]
fn empty_frame_has_no_records() {
    assert!(parse_records("").is_empty());
    assert!(parse_records("\n\n").is_empty());
}

#[test]
fn non_ascii_values_survive() {
    let records = parse_records("GREETING=héllo wörld\nΠ=3");
    assert_eq!(pairs(&records), vec![pair("GREETING", "héllo wörld"), pair("Π", "3")]);
}

#[test]
fn later_duplicate_wins_on_merge() {
    let records = parse_records("A=1\nA=2");
    let mut env = EnvTable::new();
    env.merge(&records, &[]);
    assert_eq!(env.get_var(&"A".to_string()), Some("2".to_string()));
}

#[test]
fn merging_twice_changes_nothing() {
    let records = parse_records("A=1\nB=2\nA=3");
    let vars = names(&["A", "B"]);
    let mut once = EnvTable::new();
    once.set_var("C".to_string(), "keep".to_string());
    once.merge(&records, &vars);
    let mut twice = EnvTable::new();
    twice.set_var("C".to_string(), "keep".to_string());
    twice.merge(&records, &vars);
    twice.merge(&records, &vars);
    for key in ["A", "B", "C", "D"] {
        assert_eq!(once.get_var(&key.to_string()), twice.get_var(&key.to_string()));
    }
    assert_eq!(once.get_var(&"A".to_string()), Some("3".to_string()));
}

#[test]
fn merge_overwrites_existing_value() {
    let mut env = EnvTable::new();
    env.set_var("PATH".to_string(), "/usr/bin".to_string());
    env.merge(&parse_records("PATH=/opt/bin:/usr/bin"), &names(&["PATH"]));
    assert_eq!(env.get_var(&"PATH".to_string()), Some("/opt/bin:/usr/bin".to_string()));
}

#[test]
fn merge_leaves_keys_outside_allow_list() {
    let mut env = EnvTable::new();
    env.set_var("HOME".to_string(), "/root".to_string());
    env.merge(&parse_records("HOME=/home/x\nPATH=/bin\nEDITOR=vi"), &names(&["PATH"]));
    assert_eq!(env.get_var(&"HOME".to_string()), Some("/root".to_string()));
    assert_eq!(env.get_var(&"PATH".to_string()), Some("/bin".to_string()));
    assert_eq!(env.get_var(&"EDITOR".to_string()), None);
}

#[test]
fn get_var_on_empty_table() {
    let env = EnvTable::new();
    assert_eq!(env.get_var(&"PATH".to_string()), None);
}

#[test]
fn allow_list_filters_keys() {
    let records = parse_records("PATH=/bin\nHOME=/h\nLANG=C\nPATH=/usr/bin");
    let chosen = select_records(&records, &names(&["PATH", "LANG"]));
    assert_eq!(
        pairs(&chosen),
        vec![pair("PATH", "/bin"), pair("LANG", "C"), pair("PATH", "/usr/bin")]
    );
    for r in &chosen {
        assert!(r.key == "PATH" || r.key == "LANG");
    }
}

#[test]
fn empty_allow_list_admits_everything() {
    let records = parse_records("PATH=/bin\nHOME=/h");
    assert_eq!(pairs(&select_records(&records, &[])), pairs(&records));
    assert!(is_allowed(&[], &"ANY".to_string()));
}

#[test]
fn is_allowed_checks_membership() {
    let vars = names(&["PATH", "HOME"]);
    assert!(is_allowed(&vars, &"HOME".to_string()));
    assert!(!is_allowed(&vars, &"PATHS".to_string()));
    assert!(!is_allowed(&vars, &"".to_string()));
}

#[test]
fn launch_failure_is_passed_through() {
    let e = std::io::Error::new(std::io::ErrorKind::NotFound, "no such shell");
    match fix_vars(&[], Err(e)) {
        Err(Error::Shell(inner)) => {
            assert_eq!(inner.kind(), std::io::ErrorKind::NotFound);
            assert_eq!(inner.to_string(), "no such shell");
        }
        other => panic!("unexpected: {:?}", other),
    }
}

#[test]
fn non_zero_exit_carries_stderr() {
    let capture = CaptureResult {
        exit_code: Some(1),
        stdout: framed("PATH=/bin"),
        stderr: b"boom".to_vec(),
    };
    match fix_vars(&names(&["PATH"]), Ok(capture)) {
        Err(Error::EchoFailed(msg)) => assert_eq!(msg, "boom"),
        other => panic!("unexpected: {:?}", other),
    }
}

#[test]
fn killed_shell_is_a_failure() {
    let capture = CaptureResult { exit_code: None, stdout: Vec::new(), stderr: b"killed".to_vec() };
    match fix_all_vars(Ok(capture)) {
        Err(Error::EchoFailed(msg)) => assert_eq!(msg, "killed"),
        other => panic!("unexpected: {:?}", other),
    }
}

#[test]
fn stderr_is_decoded_lossily() {
    let capture = CaptureResult { exit_code: Some(2), stdout: Vec::new(), stderr: vec![b'e', 0xff, b'!'] };
    match fix_all_vars(Ok(capture)) {
        Err(Error::EchoFailed(msg)) => assert_eq!(msg, "e\u{FFFD}!"),
        other => panic!("unexpected: {:?}", other),
    }
}

#[test]
fn output_without_frame_is_invalid() {
    let stdout = format!("banner{}PATH=/bin", DELIMITER).into_bytes();
    match fix(success(stdout)) {
        Err(Error::InvalidOutput(text)) => {
            assert_eq!(text, format!("banner{}PATH=/bin", DELIMITER));
        }
        other => panic!("unexpected: {:?}", other),
    }
}

#[test]
fn fix_imports_path_only() {
    let result = fix(success(framed("HOME=/h\nPATH=/usr/local/bin:/bin\nLANG=C\n"))).unwrap();
    assert_eq!(pairs(&result), vec![pair("PATH", "/usr/local/bin:/bin")]);
}

#[test]
fn fix_all_vars_imports_everything() {
    let result = fix_all_vars(success(framed("HOME=/h\nbroken\nPATH=/bin\n"))).unwrap();
    assert_eq!(pairs(&result), vec![pair("HOME", "/h"), pair("PATH", "/bin")]);
}

#[test]
fn fix_vars_strips_escape_sequences() {
    let body = "\u{1b}[32mPATH=/bin\u{1b}[0m\nLANG=C";
    let result = fix_vars(&names(&["PATH", "LANG"]), success(framed(body))).unwrap();
    assert_eq!(pairs(&result), vec![pair("PATH", "/bin"), pair("LANG", "C")]);
}

#[test]
fn fix_vars_decodes_invalid_bytes_lossily() {
    let mut stdout = framed("X=a");
    stdout.insert(0, 0xfe);
    let pos = stdout.len() - DELIMITER.len();
    stdout.splice(pos..pos, [b'\n', b'Y', b'=', 0xff]);
    let result = fix_all_vars(success(stdout)).unwrap();
    assert_eq!(pairs(&result), vec![pair("X", "a"), pair("Y", "\u{FFFD}")]);
}

#[test]
fn windows_skips_the_shell() {
    assert_eq!(Platform::Windows.default_shell(), None);
}

#[test]
fn default_shells_per_platform() {
    assert_eq!(Platform::MacOs.default_shell(), Some("/bin/zsh".to_string()));
    assert_eq!(Platform::OtherUnix.default_shell(), Some("/bin/sh".to_string()));
}

#[test]
fn shell_var_takes_precedence() {
    let t = shell_target("/bin/sh".to_string(), Some("/usr/bin/fish".to_string()), None);
    assert_eq!(t.program, "/usr/bin/fish");
    assert_eq!(t.current_dir, None);
}

#[test]
fn shell_target_falls_back_and_sets_up_command() {
    let t = shell_target("/bin/zsh".to_string(), None, Some("/home/u".to_string()));
    assert_eq!(t.program, "/bin/zsh");
    assert_eq!(t.current_dir, Some("/home/u".to_string()));
    assert_eq!(t.args[0], "-ilc");
    assert_eq!(
        t.args[1],
        "echo -n \"_SHELL_ENV_DELIMITER_\"; env; echo -n \"_SHELL_ENV_DELIMITER_\"; exit"
    );
    assert_eq!(pairs(&t.env), vec![pair("DISABLE_AUTO_UPDATE", "true")]);
}
