use jbi::lexer::lex;
use jbi::parser::{parse, Error, Node};

fn parse_source(src: &str) -> Result<Node, Vec<Error>> {
    parse(&lex(src, "t").unwrap())
}

fn root_children(root: Node) -> Vec<Node> {
    match root {
        Node::Root { children } => children,
        _ => panic!("parse must return a root node"),
    }
}

#[test]
fn program_without_brackets_is_one_level() {
    // One leaf per instruction, never a loop node.
    let children = root_children(parse_source("+-.,><").unwrap());
    assert_eq!(children.len(), 6);
    for child in &children {
        assert!(!matches!(child, Node::Loop { .. }));
        assert!(!matches!(child, Node::Root { .. }));
    }
    assert!(matches!(children[0], Node::Increment { .. }));
    assert!(matches!(children[1], Node::Decrement { .. }));
    assert!(matches!(children[2], Node::Print { .. }));
    assert!(matches!(children[3], Node::Read { .. }));
    assert!(matches!(children[4], Node::MoveRight { .. }));
    assert!(matches!(children[5], Node::MoveLeft { .. }));
}

#[test]
fn nested_loops_build_nested_nodes() {
    let children = root_children(parse_source("+[>[-]<]").unwrap());
    assert_eq!(children.len(), 2);
    assert!(matches!(children[0], Node::Increment { .. }));
    match &children[1] {
        Node::Loop { loc, children: body } => {
            assert_eq!(loc.range, (1, 2));
            assert_eq!(body.len(), 3);
            assert!(matches!(body[0], Node::MoveRight { .. }));
            match &body[1] {
                Node::Loop { loc, children: inner } => {
                    assert_eq!(loc.range, (3, 4));
                    assert_eq!(inner.len(), 1);
                    assert!(matches!(inner[0], Node::Decrement { .. }));
                }
                _ => panic!("expected an inner loop"),
            }
            assert!(matches!(body[2], Node::MoveLeft { .. }));
        }
        _ => panic!("expected a loop"),
    }
}

#[test]
fn lone_open_bracket_fails_with_one_unclosed_diagnostic() {
    let errs = parse_source("[").unwrap_err();
    assert_eq!(errs.len(), 1);
    match &errs[0] {
        Error::UnclosedBracket(l) => {
            assert_eq!(l.lineno, 1);
            assert_eq!(l.range, (0, 1));
        }
        _ => panic!("expected an unclosed-bracket diagnostic"),
    }
}

#[test]
fn lone_close_bracket_fails_with_one_extraneous_diagnostic() {
    let errs = parse_source("]").unwrap_err();
    assert_eq!(errs.len(), 1);
    match &errs[0] {
        Error::ExtraneousClose(l) => {
            assert_eq!(l.lineno, 1);
            assert_eq!(l.range, (0, 1));
        }
        _ => panic!("expected an extraneous-close diagnostic"),
    }
}

#[test]
fn unclosed_fault_points_at_the_opening_bracket() {
    // The bracket that was never closed is named, not the end of input.
    let errs = parse_source("+[[]").unwrap_err();
    assert_eq!(errs.len(), 1);
    match &errs[0] {
        Error::UnclosedBracket(l) => assert_eq!(l.range, (1, 2)),
        _ => panic!("expected an unclosed-bracket diagnostic"),
    }
}

#[test]
fn extraneous_fault_points_at_the_stray_bracket() {
    let errs = parse_source("[]]").unwrap_err();
    assert_eq!(errs.len(), 1);
    match &errs[0] {
        Error::ExtraneousClose(l) => assert_eq!(l.range, (2, 3)),
        _ => panic!("expected an extraneous-close diagnostic"),
    }
}

#[test]
fn parse_succeeds_exactly_on_balanced_brackets() {
    assert!(parse_source("").is_ok());
    assert!(parse_source("[]").is_ok());
    assert!(parse_source("[[]]").is_ok());
    assert!(parse_source("[][]").is_ok());
    assert!(parse_source("+[>[-][.]<]").is_ok());
    assert!(parse_source("[").is_err());
    assert!(parse_source("]").is_err());
    assert!(parse_source("][").is_err());
    assert!(parse_source("[[]").is_err());
    assert!(parse_source("[]]").is_err());
    assert!(parse_source("[+[-]").is_err());
}

fn flatten(node: &Node, out: &mut String) {
    match node {
        Node::Root { children } => {
            for child in children {
                flatten(child, out);
            }
        }
        Node::Loop { children, .. } => {
            out.push('[');
            for child in children {
                flatten(child, out);
            }
            out.push(']');
        }
        Node::Increment { .. } => out.push('+'),
        Node::Decrement { .. } => out.push('-'),
        Node::MoveRight { .. } => out.push('>'),
        Node::MoveLeft { .. } => out.push('<'),
        Node::Print { .. } => out.push('.'),
        Node::Read { .. } => out.push(','),
    }
}

#[test]
fn parsed_tree_unparses_to_the_instructions() {
    // Bracket pairs correspond 1:1 to loop nodes and no leaf is lost:
    // flattening the tree gives back exactly the instruction characters.
    let source = "++ [>,[-.]<]\n\t[] ><";
    let tree = parse_source(source).unwrap();
    let mut rendered = String::new();
    flatten(&tree, &mut rendered);
    let expected: String = source
        .chars()
        .filter(|c| matches!(c, '+' | '-' | '.' | ',' | '>' | '<' | '[' | ']'))
        .collect();
    assert_eq!(rendered, expected);
}

#[test]
fn plus_empty_loop_parses_into_leaf_and_empty_loop() {
    let children = root_children(parse_source("+[]").unwrap());
    assert_eq!(children.len(), 2);
    assert!(matches!(children[0], Node::Increment { .. }));
    match &children[1] {
        Node::Loop { children: body, .. } => assert!(body.is_empty()),
        _ => panic!("expected an empty loop"),
    }
}
