use textree::{
    environment_symbol_at, extract_environment, extract_group, extract_node, extract_nodes,
    extract_text, find_group_span, ParseError, Span, TexNode, Text,
};

const TEX: &'static str = r#"
\section{Introduction}
Hello, world!
\section{Theory}
An operator $T$ is \textbf{self-adjoint} if $T^\ast = T$, i.e.,
it is own adjoint.
"#;

#[test]
fn test_environment_symbol_re() {
    let begin_environment = r#"\begin{theorem}"#;
    let end_environment = r#"\end{theorem}"#;

    let mat = environment_symbol_at(begin_environment, 0, begin_environment.len()).unwrap();
    println!("{:?}", mat);
    assert!(mat.0);
    assert_eq!(mat.1, b"theorem".to_vec());
    assert_eq!(mat.2, begin_environment.len());

    let mat = environment_symbol_at(end_environment, 0, end_environment.len()).unwrap();
    println!("{:?}", mat);
    assert!(!mat.0);
    assert_eq!(mat.1, b"theorem".to_vec());
    assert_eq!(mat.2, end_environment.len());
}

#[test]
fn succeed_in_extracting_environment() {
    let tex = r#"\begin{theorem}[Taylor's Theorem]
This is an important theorem.
\end{theorem}
"#;
    let environment = extract_environment(tex, 0, tex.len()).unwrap().unwrap();
    println!("{:#?}", environment);
    assert_eq!(environment.name, b"theorem".to_vec());
    assert_eq!(environment.args.len(), 1);
}

#[test]
fn succeed_in_finding_a_group_span() {
    let tex = "{aaa{bbb}ccc{ddd}eee}fff";
    let span = find_group_span(tex, 0, tex.len()).unwrap();
    println!("{}", &tex[span.start..span.end]);
    println!("{:#?}", extract_group(tex, 0, tex.len()));
    assert_eq!(span, Span { start: 0, end: 21 });
}

#[test]
fn succeed_in_extracting_nodes() {
    // The sample text holds `$T^\ast = T$`, whose `^` no recognizer
    // accepts, so the whole extraction aborts with the unknown-node
    // error instead of returning a partial sequence.
    match extract_nodes(TEX, 0, TEX.len()) {
        Err(ParseError::UnknownTexNode(rem)) => {
            assert!(rem.starts_with(b"^"));
        },
        other => panic!("{:?}", other),
    }
}

#[test]
fn succeed_in_extracting_text_nodes() {
    let text = extract_node(TEX, 0, TEX.len()).unwrap();
    assert_eq!(
        text,
        TexNode::Text(Text { span: Span { start: 0, end: 1 }, content: b"\n".to_vec() })
    );
}

#[test]
fn fail_to_extract_text_nodes() {
    // Offset 1 holds `\section{Introduction}`: the dispatcher yields a
    // command there, so no text node can be extracted.
    let node = extract_node(TEX, 1, TEX.len()).unwrap();
    assert!(!matches!(node, TexNode::Text(_)));
    assert!(matches!(node, TexNode::Command(_)));
}

#[test]
fn succeed_to_extract_texts() {
    let text = extract_text(TEX, 0, TEX.len()).unwrap();
    assert_eq!(
        text,
        Text { span: Span { start: 0, end: 1 }, content: b"\n".to_vec() }
    );

    let text = extract_text(TEX, 24, TEX.len()).unwrap();
    assert_eq!(
        text,
        Text { span: Span { start: 24, end: 38 }, content: b"Hello, world!\n".to_vec() }
    );

    let text = extract_text(TEX, 55, TEX.len()).unwrap();
    assert_eq!(
        text,
        Text { span: Span { start: 55, end: 67 }, content: b"An operator ".to_vec() }
    );
}

#[test]
fn fail_to_extract_texts() {
    assert_eq!(extract_text(TEX, 1, TEX.len()), None);
}
