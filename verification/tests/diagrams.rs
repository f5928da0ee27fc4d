use texforge::diagrams::{diagram_sources, extract_inputs, render_diagrams, resolve_tex, DiagramError};

fn render_all(content: &str) -> Result<(String, Vec<String>), DiagramError> {
    let mut outcomes: Vec<Result<String, String>> = Vec::new();
    for src in diagram_sources(content) {
        let outcome = mermaid_rs_renderer::render(&src).map_err(|e| e.to_string());
        let failed = outcome.is_err();
        outcomes.push(outcome);
        if failed {
            break;
        }
    }
    render_diagrams(content, &outcomes)
}

#[test]
fn content_without_diagrams_is_unchanged() {
    let (text, svgs) = render_diagrams("plain \\LaTeX\n", &[]).unwrap();
    assert_eq!(text, "plain \\LaTeX\n");
    assert!(svgs.is_empty());
}

#[test]
fn unclosed_block_is_an_error() {
    let e = render_diagrams("a\n\\begin{mermaid}\ngraph TD\n", &[]).unwrap_err();
    assert!(matches!(e, DiagramError::Unclosed));
    assert_eq!(e.message(), "\\begin{mermaid} without matching \\end{mermaid}");
}

#[test]
fn blocks_are_replaced_by_numbered_images() {
    let src = "before\n\\begin{mermaid}\ngraph TD\n  A-->B\n\\end{mermaid}\nmid\n\\begin{mermaid}\ngraph LR\n  C-->D\n\\end{mermaid}\nafter";
    let (text, svgs) = render_all(src).unwrap();
    assert_eq!(
        text,
        "before\n\\includegraphics{build/diagrams/diagram-1.svg}\nmid\n\\includegraphics{build/diagrams/diagram-2.svg}\nafter"
    );
    assert_eq!(svgs.len(), 2);
    assert!(svgs[0].contains("<svg"));
}

#[test]
fn render_error_message() {
    let e = DiagramError::Render("bad".to_string());
    assert_eq!(e.message(), "Mermaid render error: bad");
}

#[test]
fn inputs_of_a_line() {
    assert_eq!(extract_inputs("\\input{a} and \\input{ b }"), vec!["a".to_string(), "b".to_string()]);
    assert!(extract_inputs("\\input{x").is_empty());
    assert_eq!(resolve_tex("ch/intro"), "ch/intro.tex");
    assert_eq!(resolve_tex("ch/intro.tex"), "ch/intro.tex");
}

const TWO_BLOCKS: &str = "a\\begin{mermaid} x \\end{mermaid}b\\begin{mermaid}y\\end{mermaid}c";

#[test]
fn sources_of_complete_blocks() {
    assert_eq!(diagram_sources(TWO_BLOCKS), vec!["x".to_string(), "y".to_string()]);
    assert_eq!(
        diagram_sources("\\begin{mermaid}a\\end{mermaid}\\begin{mermaid}open"),
        vec!["a".to_string()]
    );
}

#[test]
fn assembling_given_outcomes() {
    let (text, svgs) =
        render_diagrams(TWO_BLOCKS, &[Ok("S1".to_string()), Ok("S2".to_string())]).unwrap();
    assert_eq!(
        text,
        "a\\includegraphics{build/diagrams/diagram-1.svg}b\\includegraphics{build/diagrams/diagram-2.svg}c"
    );
    assert_eq!(svgs, vec!["S1".to_string(), "S2".to_string()]);
    let e = render_diagrams(TWO_BLOCKS, &[Ok("S1".to_string()), Err("boom".to_string())]).unwrap_err();
    assert_eq!(e.message(), "Mermaid render error: boom");
    let e = render_diagrams("x\\begin{mermaid}open", &[]).unwrap_err();
    assert!(matches!(e, DiagramError::Unclosed));
}

#[test]
fn renderer_failure_is_reported() {
    let e = render_all("\\begin{mermaid}\nnot a diagram\n\\end{mermaid}").unwrap_err();
    assert!(matches!(e, DiagramError::Render(_)));
}

#[test]
fn outcomes_past_the_blocks_and_blocks_past_the_outcomes() {
    let (text, svgs) = render_diagrams("x", &[Ok("S".to_string())]).unwrap();
    assert_eq!(text, "x");
    assert!(svgs.is_empty());
    let (text, svgs) = render_diagrams(TWO_BLOCKS, &[Ok("S1".to_string())]).unwrap();
    assert_eq!(
        text,
        "a\\includegraphics{build/diagrams/diagram-1.svg}b\\begin{mermaid}y\\end{mermaid}c"
    );
    assert_eq!(svgs, vec!["S1".to_string()]);
}

#[test]
fn the_first_rejected_block_gives_the_error() {
    let e = render_diagrams(TWO_BLOCKS, &[Err("first".to_string()), Err("second".to_string())])
        .unwrap_err();
    assert_eq!(e.message(), "Mermaid render error: first");
    let e = render_diagrams("\\begin{mermaid}a\\end{mermaid}\\begin{mermaid}open", &[Ok("S".to_string())])
        .unwrap_err();
    assert!(matches!(e, DiagramError::Unclosed));
}
