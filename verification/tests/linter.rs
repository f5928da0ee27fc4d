use texforge::linter::{
    check_environments, check_references, collect_labels, entry_missing, extract_commands,
    join_path, lint_files, normalize_path, parse_bib_keys, referenced_paths, resolve_tex_path, strip_comment,
    LintError, SourceFile, TexCollector,
};

fn strings(v: &[&str]) -> Vec<String> {
    v.iter().map(|s| s.to_string()).collect()
}

#[test]
fn comments_are_stripped_unless_escaped() {
    assert_eq!(strip_comment("text % comment"), "text ");
    assert_eq!(strip_comment("50\\% off % note"), "50\\% off ");
    assert_eq!(strip_comment("% all comment"), "");
    assert_eq!(strip_comment("no comment"), "no comment");
    assert_eq!(strip_comment("line\\\\% comment"), "line\\\\");
    assert_eq!(strip_comment("a\\\\\\% b % c"), "a\\\\\\% b ");
}

#[test]
fn command_arguments_are_extracted() {
    assert_eq!(
        extract_commands("\\cite{a} and \\cite[p. 3]{ b } \\cite{}", "cite"),
        strings(&["a", "b"])
    );
    assert_eq!(
        extract_commands("\\includegraphics[width=5cm]{img.png}", "includegraphics"),
        strings(&["img.png"])
    );
    assert_eq!(extract_commands("\\input{x", "input"), Vec::<String>::new());
    assert_eq!(extract_commands("\\ref[unclosed", "ref"), Vec::<String>::new());
}

#[test]
fn tex_paths_get_the_tex_extension() {
    assert_eq!(resolve_tex_path("chapters/intro"), "chapters/intro.tex");
    assert_eq!(resolve_tex_path("chapters/intro.tex"), "chapters/intro.tex");
    assert_eq!(resolve_tex_path("figure.pdf"), "figure.pdf");
    assert_eq!(resolve_tex_path(".hidden"), ".hidden.tex");
    assert_eq!(resolve_tex_path("chapters/"), "chapters.tex");
    assert_eq!(resolve_tex_path("chapters/."), "chapters.tex");
    assert_eq!(resolve_tex_path("chapters/./"), "chapters.tex");
    assert_eq!(resolve_tex_path("notes.md/."), "notes.md/.");
    assert_eq!(join_path("/proj", "main.tex"), "/proj/main.tex");
    assert_eq!(join_path("/proj/", "main.tex"), "/proj/main.tex");
    assert_eq!(join_path("", "main.tex"), "main.tex");
    assert_eq!(join_path("/proj", "/abs.tex"), "/abs.tex");
}

#[test]
fn unclosed_and_mismatched_environments() {
    let content = "\\begin{document}\n\\begin{figure}\n\\end{table}\n% \\end{document}\n";
    let mut errors: Vec<LintError> = Vec::new();
    check_environments("main.tex", content, &mut errors);
    assert_eq!(errors.len(), 3);
    assert_eq!(errors[0].line, 3);
    assert_eq!(errors[0].message, "\\end{table} does not match \\begin{figure}");
    assert_eq!(errors[0].suggestion, Some("Expected \\end{figure}".to_string()));
    assert_eq!(errors[1].line, 1);
    assert_eq!(errors[1].message, "\\begin{document} never closed");
    assert_eq!(errors[1].suggestion, Some("Add \\end{document}".to_string()));
    assert_eq!(errors[2].line, 2);
    assert_eq!(errors[2].message, "\\begin{figure} never closed");
}

#[test]
fn end_without_begin() {
    let mut errors: Vec<LintError> = Vec::new();
    check_environments("a.tex", "text\n\\end{itemize}", &mut errors);
    assert_eq!(errors.len(), 1);
    assert_eq!(errors[0].file, "a.tex");
    assert_eq!(errors[0].line, 2);
    assert_eq!(errors[0].message, "\\end{itemize} without matching \\begin");
    assert_eq!(errors[0].suggestion, None);
}

#[test]
fn balanced_environments_give_no_finding() {
    let mut errors: Vec<LintError> = Vec::new();
    check_environments("a.tex", "\\begin{a}\\begin{b}\n\\end{b}\\end{a}", &mut errors);
    assert!(errors.is_empty());
}

#[test]
fn broken_references_are_reported() {
    let content = "\\input{missing}\n\\includegraphics{img.png} \\cite{k1, k2,,}\n\\ref{fig:a} \\ref{fig:b} % \\ref{gone}";
    let keys = strings(&["k1"]);
    let labels = strings(&["fig:a"]);
    let existing = strings(&["img.png"]);
    let mut errors: Vec<LintError> = Vec::new();
    check_references("/p", "main.tex", content, Some("refs.bib"), &keys, &labels, &existing, &mut errors);
    assert_eq!(errors.len(), 3);
    assert_eq!(errors[0].line, 1);
    assert_eq!(errors[0].message, "\\input{missing} — file not found");
    assert_eq!(errors[0].suggestion, Some("Create /p/missing.tex".to_string()));
    assert_eq!(errors[1].line, 2);
    assert_eq!(errors[1].message, "\\cite{k2} — key not found in .bib");
    assert_eq!(errors[2].line, 3);
    assert_eq!(errors[2].message, "\\ref{fig:b} — no matching \\label found");
}

#[test]
fn citations_are_not_checked_without_bibliography() {
    let mut errors: Vec<LintError> = Vec::new();
    check_references("/p", "a.tex", "\\cite{nothing}", None, &Vec::new(), &Vec::new(), &Vec::new(), &mut errors);
    assert!(errors.is_empty());
}

#[test]
fn bib_keys_labels_and_paths() {
    let bib = "@article{smith2020,\n  title={X},\n}\n@comment{skip,}\n  @book{ doe ,\n@misc{nokey}\n";
    assert_eq!(parse_bib_keys(bib), strings(&["smith2020", "doe"]));
    assert_eq!(collect_labels("\\label{a} x \\label{b}\n% \\label{c}\n\\label{d}"), strings(&["a", "b", "d"]));
    assert_eq!(
        referenced_paths("\\input{ch1}\n\\includegraphics{f.png}\n\\input{ch2.tex}"),
        strings(&["ch1.tex", "ch2.tex", "f.png"])
    );
}

#[test]
fn missing_entry_finding() {
    let e = entry_missing("main.tex");
    assert_eq!(e.file, "main.tex");
    assert_eq!(e.line, 0);
    assert_eq!(e.message, "Entry point file does not exist");
    assert_eq!(e.suggestion, Some("Create main.tex".to_string()));
    assert_eq!(
        e.render(),
        "ERROR [main.tex:0]\n  Entry point file does not exist\n  suggestion: Create main.tex"
    );
}

#[test]
fn rendering_without_suggestion() {
    let e = LintError {
        file: "a.tex".to_string(),
        line: 12,
        message: "\\cite{x} — key not found in .bib".to_string(),
        suggestion: None,
    };
    assert_eq!(e.render(), "ERROR [a.tex:12]\n  \\cite{x} — key not found in .bib");
}

#[test]
fn lint_files_checks_every_file_with_all_labels() {
    let files = vec![
        SourceFile { rel: "main.tex".to_string(), content: "\\input{ch}\n\\ref{sec:b}\n\\cite{k}".to_string() },
        SourceFile { rel: "ch.tex".to_string(), content: "\\label{sec:b}\n\\begin{x}".to_string() },
    ];
    let existing = strings(&["main.tex", "ch.tex"]);
    let mut errors: Vec<LintError> = Vec::new();
    lint_files("/p", &files, Some("refs.bib"), Some("@book{k,\n}"), &existing, &mut errors);
    assert_eq!(errors.len(), 1);
    assert_eq!(errors[0].file, "ch.tex");
    assert_eq!(errors[0].message, "\\begin{x} never closed");
}

#[test]
fn collector_walks_inputs_depth_first() {
    let mut c = TexCollector::new("/p", "main");
    assert_eq!(c.next_path(), Some("main.tex".to_string()));
    c.feed(true, Some("\\input{a}\n\\input{b}"));
    assert_eq!(c.next_path(), Some("a.tex".to_string()));
    c.feed(true, Some("\\input{main}"));
    assert_eq!(c.next_path(), Some("main.tex".to_string()));
    c.feed(true, Some(""));
    assert_eq!(c.errors.len(), 1);
    assert_eq!(c.errors[0].message, "Circular \\input detected: /p/main.tex");
    assert_eq!(c.errors[0].suggestion, Some("Remove the circular reference".to_string()));
    assert_eq!(c.next_path(), Some("b.tex".to_string()));
    c.feed(false, None);
    assert_eq!(c.next_path(), None);
    assert_eq!(c.files, strings(&["main.tex", "a.tex"]));
}

#[test]
fn paths_are_compared_by_their_components() {
    assert_eq!(normalize_path("./a//b/./c.tex"), "a/b/c.tex");
    assert_eq!(normalize_path("/x/./y"), "/x/y");
    assert_eq!(normalize_path("ch/"), "ch");
    assert_eq!(normalize_path(""), "");
}

#[test]
fn an_input_written_with_a_dot_is_the_same_file() {
    let mut c = TexCollector::new("/p", "main");
    c.feed(true, Some("\\input{a}\n\\input{./a}"));
    assert_eq!(c.next_path(), Some("a.tex".to_string()));
    c.feed(true, Some(""));
    assert_eq!(c.next_path(), Some("./a.tex".to_string()));
    c.feed(true, Some(""));
    assert_eq!(c.errors.len(), 1);
    assert_eq!(c.errors[0].file, "./a");
    assert_eq!(c.errors[0].message, "Circular \\input detected: /p/./a.tex");
    assert_eq!(c.files, strings(&["main.tex", "a.tex"]));
}
