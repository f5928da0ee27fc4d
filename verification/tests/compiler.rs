use texforge::compiler::{compile_failure_message, parse_errors};

const RAW: &str = "error: main.tex:12: Undefined control sequence\n! Missing $ inserted.\nl.34 some text\nnoise\nerror: something bad\n";

#[test]
fn engine_errors_are_parsed() {
    let errs = parse_errors(RAW);
    assert_eq!(errs.len(), 3);
    assert_eq!(errs[0].file, "main.tex");
    assert_eq!(errs[0].line, 12);
    assert_eq!(errs[0].message, "Undefined control sequence");
    assert_eq!(errs[1].file, "");
    assert_eq!(errs[1].line, 34);
    assert_eq!(errs[1].message, "Missing $ inserted.");
    assert_eq!(errs[2].line, 0);
    assert_eq!(errs[2].message, "something bad");
}

#[test]
fn unparsable_locations_keep_the_whole_message() {
    let errs = parse_errors("  error:  a:b: msg  \nl.x\n");
    assert_eq!(errs.len(), 1);
    assert_eq!(errs[0].file, "");
    assert_eq!(errs[0].line, 0);
    assert_eq!(errs[0].message, "a:b: msg");
}

#[test]
fn line_marker_without_error_is_ignored() {
    assert!(parse_errors("l.12 text\nplain\n").is_empty());
}

#[test]
fn failure_message_lists_errors() {
    assert_eq!(
        compile_failure_message(RAW),
        "Compilation failed:\n\nERROR [main.tex:12]\n  Undefined control sequence\n\nERROR [:34]\n  Missing $ inserted.\n\nERROR [:0]\n  something bad"
    );
}

#[test]
fn failure_message_without_errors_shows_output() {
    assert_eq!(compile_failure_message("  nothing useful \n"), "Compilation failed:\nnothing useful");
}
