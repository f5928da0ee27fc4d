use texforge::formatter::{extract_env_name, is_structural_command};

#[test]
fn indents_environment_body() {
    let src = "\\begin{document}\nHello\n\\end{document}";
    assert_eq!(texforge::formatter::format(src), "\\begin{document}\n  Hello\n\\end{document}\n");
}

#[test]
fn collapses_blank_lines() {
    assert_eq!(texforge::formatter::format("a\n\n\n\nb\n\n"), "a\n\nb\n");
}

#[test]
fn drops_leading_and_trailing_blank_lines() {
    assert_eq!(texforge::formatter::format("\n\n  a  \n\n\n"), "a\n");
}

#[test]
fn empty_input_gives_one_newline() {
    assert_eq!(texforge::formatter::format(""), "\n");
    assert_eq!(texforge::formatter::format("\n\n\n"), "\n");
}

#[test]
fn keeps_verbatim_untouched() {
    let src = "\\begin{verbatim}\n   x  \n\n\n\\end{verbatim}";
    assert_eq!(texforge::formatter::format(src), "\\begin{verbatim}\n   x  \n\n\n\\end{verbatim}\n");
}

#[test]
fn structural_commands_stay_at_margin() {
    let src = "\\begin{document}\n\\section{A}\ntext\n\\end{document}";
    assert_eq!(texforge::formatter::format(src), "\\begin{document}\n\\section{A}\n  text\n\\end{document}\n");
}

#[test]
fn nested_environments_indent_twice() {
    let src = "\\begin{a}\n\\begin{b}\nx\n\\end{b}\n\\end{a}";
    assert_eq!(texforge::formatter::format(src), "\\begin{a}\n\\begin{b}\n    x\n\\end{b}\n\\end{a}\n");
}

#[test]
fn unmatched_end_does_not_go_below_zero() {
    assert_eq!(texforge::formatter::format("\\end{a}\nx"), "\\end{a}\nx\n");
}

#[test]
fn formatting_twice_changes_nothing() {
    let src = "  \\documentclass{article}\n\n\n\\begin{document}\n      Hello   \n\\begin{itemize}\n\\item one\n\n\n\\end{itemize}\n\\end{document}\n\n";
    let once = texforge::formatter::format(src);
    assert_eq!(texforge::formatter::format(&once), once);
}

#[test]
fn output_ends_with_exactly_one_newline() {
    let out = texforge::formatter::format("a\n\n\n");
    assert_eq!(out, "a\n");
    assert!(out.ends_with('\n') && !out.ends_with("\n\n"));
}

#[test]
fn structural_command_detection() {
    assert!(is_structural_command("\\section{Intro}"));
    assert!(is_structural_command("\\usepackage{amsmath}"));
    assert!(!is_structural_command("plain text"));
    assert!(!is_structural_command(" \\section{Intro}"));
}

#[test]
fn environment_name_extraction() {
    assert_eq!(extract_env_name("\\begin{figure}[h]"), Some("figure".to_string()));
    assert_eq!(extract_env_name("x \\begin{itemize}"), Some("itemize".to_string()));
    assert_eq!(extract_env_name("\\begin{figure"), None);
    assert_eq!(extract_env_name("no environment"), None);
}

#[test]
fn only_verbatim_lines_keep_blank_runs() {
    let src = "a\n\n\n\\begin{verbatim}\n\n\n\\end{verbatim}\n\n\nb";
    assert_eq!(
        texforge::formatter::format(src),
        "a\n\n\\begin{verbatim}\n\n\n\\end{verbatim}\n\nb\n"
    );
}
