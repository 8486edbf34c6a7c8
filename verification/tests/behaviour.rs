use textree::{
    extract_comment, extract_environment, extract_group, extract_inline_math, extract_node,
    extract_nodes, extract_square_group, Arg, ParseError, Span, TexNode,
};

#[test]
fn span_coverage_is_contiguous() {
    let tex = "a{b}%c\n$d$";
    let nodes = extract_nodes(tex, 0, tex.len()).unwrap();
    let mut pos = 0;
    for node in &nodes {
        let span = node.span();
        assert_eq!(span.start, pos);
        assert!(span.start < span.end);
        pos = span.end;
    }
    assert_eq!(pos, tex.len());
}

#[test]
fn round_trip_of_group_children() {
    let tex = "{ab$x$}";
    let group = extract_group(tex, 0, tex.len()).unwrap().unwrap();
    let mut rebuilt = String::new();
    for child in &group.children {
        let span = child.span();
        rebuilt.push_str(&tex[span.start..span.end]);
    }
    assert_eq!(rebuilt, "ab$x$");
}

#[test]
fn balanced_braces_never_mismatch() {
    let tex = "{aaa{bbb}ccc{ddd}eee}";
    let group = extract_group(tex, 0, tex.len()).unwrap().unwrap();
    assert_eq!(group.span, Span { start: 0, end: tex.len() });
}

#[test]
fn unmatched_open_brace_fails() {
    let tex = "{{a}";
    match extract_group(tex, 0, tex.len()) {
        Err(ParseError::GroupMismatch) => {},
        other => panic!("{:?}", other),
    }
    match extract_nodes(tex, 0, tex.len()) {
        Err(ParseError::GroupMismatch) => {},
        other => panic!("{:?}", other),
    }
}

#[test]
fn stray_close_brace_is_unknown() {
    match extract_node("}", 0, 1) {
        Err(ParseError::UnknownTexNode(rem)) => assert_eq!(rem, b"}".to_vec()),
        other => panic!("{:?}", other),
    }
}

#[test]
fn environment_nesting_same_name() {
    let tex = r"\begin{a}\begin{a}x\end{a}\end{a}";
    let nodes = extract_nodes(tex, 0, tex.len()).unwrap();
    assert_eq!(nodes.len(), 1);
    let outer = match &nodes[0] {
        TexNode::Environment(outer) => outer,
        other => panic!("{:?}", other),
    };
    assert_eq!(outer.name, b"a".to_vec());
    assert!(outer.args.is_empty());
    assert_eq!(outer.children.len(), 1);
    let inner = match &outer.children[0] {
        TexNode::Environment(inner) => inner,
        other => panic!("{:?}", other),
    };
    assert_eq!(inner.name, b"a".to_vec());
    assert_eq!(inner.children.len(), 1);
    match &inner.children[0] {
        TexNode::Text(text) => assert_eq!(text.content, b"x".to_vec()),
        other => panic!("{:?}", other),
    }
}

#[test]
fn environment_mismatch_fails() {
    let tex = r"\begin{a}x\end{b}";
    match extract_environment(tex, 0, tex.len()) {
        Err(ParseError::EnvironmentMismatch) => {},
        other => panic!("{:?}", other),
    }
    match extract_nodes(tex, 0, tex.len()) {
        Err(ParseError::EnvironmentMismatch) => {},
        other => panic!("{:?}", other),
    }
}

#[test]
fn bare_end_becomes_command() {
    // Only `\begin{name}` commits the environment recognizer; a lone
    // `\end{a}` falls through to the command recognizer instead.
    let tex = r"x\end{a}";
    let nodes = extract_nodes(tex, 0, tex.len()).unwrap();
    assert_eq!(nodes.len(), 2);
    let command = match &nodes[1] {
        TexNode::Command(command) => command,
        other => panic!("{:?}", other),
    };
    assert_eq!(command.name, b"end".to_vec());
    assert_eq!(command.args.len(), 1);
}

#[test]
fn command_absorbs_group_and_square_group() {
    let tex = r"\foo{bar}[baz]qux";
    let nodes = extract_nodes(tex, 0, tex.len()).unwrap();
    assert_eq!(nodes.len(), 2);
    let command = match &nodes[0] {
        TexNode::Command(command) => command,
        other => panic!("{:?}", other),
    };
    assert_eq!(command.name, b"foo".to_vec());
    assert_eq!(command.span, Span { start: 0, end: 14 });
    assert_eq!(command.args.len(), 2);
    match &command.args[0] {
        Arg::Mandatory { children } => match &children[0] {
            TexNode::Text(text) => assert_eq!(text.content, b"bar".to_vec()),
            other => panic!("{:?}", other),
        },
        other => panic!("{:?}", other),
    }
    match &command.args[1] {
        Arg::Optional { children } => match &children[0] {
            TexNode::Text(text) => assert_eq!(text.content, b"baz".to_vec()),
            other => panic!("{:?}", other),
        },
        other => panic!("{:?}", other),
    }
    match &nodes[1] {
        TexNode::Text(text) => {
            assert_eq!(text.span, Span { start: 14, end: 17 });
            assert_eq!(text.content, b"qux".to_vec());
        },
        other => panic!("{:?}", other),
    }
}

#[test]
fn command_with_star_and_no_args() {
    let tex = r"\section* more";
    let node = extract_node(tex, 0, tex.len()).unwrap();
    let command = match node {
        TexNode::Command(command) => command,
        other => panic!("{:?}", other),
    };
    assert_eq!(command.name, b"section*".to_vec());
    assert_eq!(command.span, Span { start: 0, end: 9 });
    assert!(command.args.is_empty());
}

#[test]
fn square_group_beats_text() {
    let tex = "[x]";
    let nodes = extract_nodes(tex, 0, tex.len()).unwrap();
    assert_eq!(nodes.len(), 1);
    match &nodes[0] {
        TexNode::SquareGroup(square_group) => {
            assert_eq!(square_group.span, Span { start: 0, end: 3 });
        },
        other => panic!("{:?}", other),
    }
}

#[test]
fn square_group_needs_close_on_one_line() {
    // A newline before the `]` stops the square group, so text wins.
    let tex = "[x\n]";
    let node = extract_node(tex, 0, tex.len()).unwrap();
    match node {
        TexNode::Text(text) => assert_eq!(text.content, b"[x\n]".to_vec()),
        other => panic!("{:?}", other),
    }
    let empty = extract_square_group("[]", 0, 2).unwrap().unwrap();
    assert_eq!(empty.span, Span { start: 0, end: 2 });
    assert!(empty.children.is_empty());
}

#[test]
fn environment_peels_leading_groups_only() {
    let tex = r"\begin{a}{m}[o]x{y}\end{a}";
    let environment = extract_environment(tex, 0, tex.len()).unwrap().unwrap();
    assert_eq!(environment.args.len(), 2);
    assert!(matches!(environment.args[0], Arg::Mandatory { .. }));
    assert!(matches!(environment.args[1], Arg::Optional { .. }));
    assert_eq!(environment.children.len(), 2);
    assert!(matches!(environment.children[0], TexNode::Text(_)));
    assert!(matches!(environment.children[1], TexNode::Group(_)));
}

#[test]
fn environment_without_leading_groups_keeps_interior() {
    let tex = r"\begin{a}x{y}\end{a}";
    let environment = extract_environment(tex, 0, tex.len()).unwrap().unwrap();
    assert!(environment.args.is_empty());
    assert_eq!(environment.children.len(), 2);
    match &environment.children[0] {
        TexNode::Text(text) => assert_eq!(text.span, Span { start: 9, end: 10 }),
        other => panic!("{:?}", other),
    }
}

#[test]
fn starred_environment_name() {
    let tex = r"\begin{a*}x\end{a*}";
    let environment = extract_environment(tex, 0, tex.len()).unwrap().unwrap();
    assert_eq!(environment.name, b"a*".to_vec());
}

#[test]
fn comment_requires_trailing_newline() {
    let comment = extract_comment("% hi\nrest", 0, 9).unwrap();
    assert_eq!(comment.span, Span { start: 0, end: 5 });
    assert_eq!(comment.content, b"% hi\n".to_vec());
    assert_eq!(extract_comment("% hi", 0, 4), None);
}

#[test]
fn inline_math_needs_nonempty_interior() {
    let math = extract_inline_math("$x$", 0, 3).unwrap().unwrap();
    assert_eq!(math.span, Span { start: 0, end: 3 });
    assert_eq!(math.children.len(), 1);
    assert!(extract_inline_math("$$", 0, 2).unwrap().is_none());
}

#[test]
fn unknown_node_preview_is_truncated() {
    let tex = "^aaaaaaaaaaaaaaaaaaaaaaa";
    let err = extract_node(tex, 0, tex.len()).unwrap_err();
    match &err {
        ParseError::UnknownTexNode(rem) => assert_eq!(rem.len(), tex.len()),
        other => panic!("{:?}", other),
    }
    assert_eq!(err.preview(), b"^aaaaaaaaaaaaaaa".to_vec());
    let short = extract_node("^ab", 0, 3).unwrap_err();
    assert_eq!(short.preview(), b"^ab".to_vec());
}

#[test]
fn preview_respects_multibyte_boundaries() {
    // 15 ASCII bytes, then a two-byte character straddling the 16-byte
    // cut: the preview backs off to the character boundary.
    let tex = "^aaaaaaaaaaaaaa\u{e9}!";
    let err = extract_node(tex, 0, tex.len()).unwrap_err();
    assert_eq!(err.preview(), b"^aaaaaaaaaaaaaa".to_vec());
}

#[test]
fn empty_region_yields_no_nodes() {
    let nodes = extract_nodes("", 0, 0).unwrap();
    assert!(nodes.is_empty());
    let nodes = extract_nodes("abc", 1, 1).unwrap();
    assert!(nodes.is_empty());
}
