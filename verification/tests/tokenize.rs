use parex::tokenize::{clean_arg, select_delims, try_clean_arg, SplitMany, SplitStep};

fn collect_tokens(delims: &[u8], input: &[u8]) -> Vec<String> {
    let mut splitter = SplitMany::new(delims.to_vec());
    splitter.push_bytes(input);
    let mut tokens: Vec<String> = Vec::new();
    loop {
        match splitter.next_split(true) {
            SplitStep::Token(raw) => {
                if let Some(tok) = try_clean_arg(delims, &raw).expect("decoding failed") {
                    tokens.push(tok.to_string());
                }
            }
            SplitStep::NeedRead => unreachable!(),
            SplitStep::Finished => break,
        }
    }
    tokens
}

#[test]
fn tokenizer_trims_and_drops_delimiter_runs() {
    let delims = [b' ', b'\t', b'\0'];
    assert_eq!(collect_tokens(&delims, b"  a \t b\0"), ["a", "b"]);
}

#[test]
fn tokenizer_yields_final_unterminated_run() {
    let delims = [b'\n'];
    assert_eq!(collect_tokens(&delims, b"one\ntwo"), ["one", "two"]);
}

#[test]
fn tokenizer_empty_input_yields_nothing() {
    let delims = [b'\n'];
    assert_eq!(collect_tokens(&delims, b""), Vec::<String>::new());
}

#[test]
fn tokenizer_asks_for_more_without_delimiter() {
    let mut splitter = SplitMany::new(vec![b'\n']);
    splitter.push_bytes(b"partial");
    assert!(matches!(splitter.next_split(false), SplitStep::NeedRead));
    splitter.push_bytes(b" token\n");
    match splitter.next_split(false) {
        SplitStep::Token(raw) => assert_eq!(raw, b"partial token\n"),
        _ => panic!("expected a token"),
    }
}

#[test]
fn clean_arg_strips_borders_only() {
    let delims = [b' '];
    assert_eq!(clean_arg(&delims, b"  a b  "), Some("a b"));
}

#[test]
fn clean_arg_drops_all_delimiter_runs() {
    let delims = [b' ', b'\n'];
    assert_eq!(clean_arg(&delims, b" \n "), None);
    assert_eq!(clean_arg(&delims, b""), None);
}

#[test]
fn delimiter_selection_follows_configuration() {
    assert_eq!(select_delims(None, false), [b'\n', b'\t', b' ']);
    assert_eq!(select_delims(None, true), [b'\0']);
    assert_eq!(select_delims(Some(",;".to_string()), false), [b',', b';']);
    assert_eq!(select_delims(Some(",".to_string()), true), [b',', b'\0']);
}

#[test]
fn try_clean_arg_reports_invalid_utf8() {
    let delims = [b' '];
    assert!(try_clean_arg(&delims, b" \xff\xfe ").is_err());
    assert_eq!(try_clean_arg(&delims, b" ok "), Ok(Some("ok")));
}
