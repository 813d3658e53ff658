use cloud_notepad::markdown::nodes::code::CodeBlock;
use cloud_notepad::markdown::nodes::header::Header;
use cloud_notepad::markdown::nodes::parse_node;
use cloud_notepad::markdown::nodes::text::TextNode;
use cloud_notepad::markdown::nodes::text::TextSegment;
use cloud_notepad::markdown::nodes::Node;
use cloud_notepad::markdown::nodes::TextRange;
use cloud_notepad::markdown::MarkdownParser;

fn bytes(text: &str) -> Vec<u8> {
    text.as_bytes().to_vec()
}

fn r(start: usize, end: usize) -> TextRange {
    TextRange { start, end }
}

fn segments(text: &str) -> Vec<TextSegment> {
    let input = bytes(text);
    let found = TextNode::parse(&input, 0).unwrap();
    assert!(found.end <= input.len());
    found.node.segments().clone()
}

#[test]
fn range_holds_its_start_but_not_its_end() {
    let range = r(2, 5);
    assert!(!range.contains(1));
    assert!(range.contains(2));
    assert!(range.contains(4));
    assert!(!range.contains(5));
    assert!(!r(3, 3).contains(3));
}

#[test]
fn plain_text_runs_to_the_next_mark() {
    assert_eq!(segments("hello world"), vec![TextSegment::Plain(r(0, 11))]);
    assert_eq!(
        segments("a [b"),
        vec![TextSegment::Plain(r(0, 2)), TextSegment::Plain(r(2, 4))]
    );
    assert_eq!(
        segments("```"),
        vec![
            TextSegment::Plain(r(0, 1)),
            TextSegment::Plain(r(1, 2)),
            TextSegment::Plain(r(2, 3)),
        ]
    );
    assert_eq!(segments("héllo"), vec![TextSegment::Plain(r(0, 6))]);
}

#[test]
fn links_have_text_and_address() {
    assert_eq!(
        segments("[a](b)"),
        vec![TextSegment::Link { text: r(1, 2), url: r(4, 5) }]
    );
    assert_eq!(
        segments("see [the site](http://x.y) now"),
        vec![
            TextSegment::Plain(r(0, 4)),
            TextSegment::Link { text: r(5, 13), url: r(15, 25) },
            TextSegment::Plain(r(26, 30)),
        ]
    );
    assert_eq!(
        segments("[a](b"),
        vec![TextSegment::Plain(r(0, 5))]
    );
    assert_eq!(
        segments("[](b)"),
        vec![TextSegment::Link { text: r(1, 1), url: r(3, 4) }]
    );
}

#[test]
fn code_and_underline_need_content() {
    assert_eq!(segments("`x`"), vec![TextSegment::Code(r(1, 2))]);
    assert_eq!(segments("~under~"), vec![TextSegment::Underline(r(1, 6))]);
    assert_eq!(
        segments("``"),
        vec![TextSegment::Plain(r(0, 1)), TextSegment::Plain(r(1, 2))]
    );
    assert_eq!(
        segments("~~x"),
        vec![TextSegment::Plain(r(0, 1)), TextSegment::Plain(r(1, 3))]
    );
    assert_eq!(
        segments("a `b c` d"),
        vec![
            TextSegment::Plain(r(0, 2)),
            TextSegment::Code(r(3, 6)),
            TextSegment::Plain(r(7, 9)),
        ]
    );
}

#[test]
fn strong_text_is_closed_by_its_marker() {
    assert_eq!(
        segments("**bold** rest"),
        vec![TextSegment::Bold(r(2, 6)), TextSegment::Plain(r(8, 13))]
    );
    assert_eq!(segments("__bold__"), vec![TextSegment::Bold(r(2, 6))]);
    assert_eq!(
        segments("*it* x"),
        vec![TextSegment::Bold(r(1, 3)), TextSegment::Plain(r(4, 6))]
    );
    assert_eq!(segments("_it_"), vec![TextSegment::Bold(r(1, 3))]);
    assert_eq!(segments("** a b**"), vec![TextSegment::Bold(r(2, 6))]);
    assert_eq!(segments("**a**b**"), vec![TextSegment::Bold(r(2, 6))]);
    assert_eq!(
        segments("**open"),
        vec![TextSegment::Plain(r(0, 1)), TextSegment::Plain(r(1, 6))]
    );
    assert_eq!(segments("*é*"), vec![TextSegment::Bold(r(1, 3))]);
}

#[test]
fn text_node_ends_with_its_line() {
    let input = bytes("one *two*\nthree");
    let first = TextNode::parse(&input, 0).unwrap();
    assert_eq!(first.end, 10);
    assert_eq!(
        first.node.segments(),
        &vec![
            TextSegment::Plain(r(0, 4)),
            TextSegment::Bold(r(5, 8)),
            TextSegment::Plain(r(9, 10)),
        ]
    );
    let second = TextNode::parse(&input, 10).unwrap();
    assert_eq!(second.end, 15);
    assert_eq!(second.node.segments(), &vec![TextSegment::Plain(r(10, 15))]);
    assert!(TextNode::parse(&input, 15).is_none());
    assert!(TextNode::parse(&input, 99).is_none());
    assert_eq!(TextNode::end_of_line(&input, 3), 10);
    assert_eq!(TextNode::end_of_line(&input, 12), 15);
    assert!(TextSegment::parse(&input, 4, 4).is_none());
    assert_eq!(TextSegment::parse(&input, 4, 9).unwrap().end, 9);
}

#[test]
fn marks_do_not_reach_over_the_line() {
    assert_eq!(
        segments("**a\nb**"),
        vec![TextSegment::Plain(r(0, 1)), TextSegment::Plain(r(1, 4))]
    );
    assert_eq!(segments("`a\nb`"), vec![TextSegment::Plain(r(0, 3))]);
}

#[test]
fn headers_have_a_level_and_text() {
    let input = bytes("## Title\nnext");
    let found = Header::parse(&input, 0).unwrap();
    assert_eq!(found.end, 9);
    assert_eq!(found.node.level(), 2);
    assert_eq!(found.node.content().segments(), &vec![TextSegment::Plain(r(2, 9))]);
    assert!(Header::parse(&input, 9).is_none());
    assert!(Header::parse(&input, 13).is_none());

    let input = bytes("######## deep");
    let found = Header::parse(&input, 0).unwrap();
    assert_eq!(found.node.level(), 6);
    assert_eq!(found.node.content().segments(), &vec![TextSegment::Plain(r(6, 13))]);

    let input = bytes("#");
    let found = Header::parse(&input, 0).unwrap();
    assert_eq!(found.end, 1);
    assert_eq!(found.node.level(), 1);
    assert!(found.node.content().segments().is_empty());

    let input = bytes("# *a*");
    let found = Header::parse(&input, 0).unwrap();
    assert_eq!(
        found.node.content().segments(),
        &vec![TextSegment::Plain(r(1, 2)), TextSegment::Bold(r(3, 4))]
    );
}

#[test]
fn code_blocks_end_at_the_closing_fence() {
    let text = "```rust\nlet x = 1;\nprint();\n```\nafter";
    let input = bytes(text);
    let found = CodeBlock::parse(&input, 0).unwrap();
    assert_eq!(found.node.language(), Some(r(3, 7)));
    assert_eq!(found.node.content(), &vec![r(8, 19), r(19, 28)]);
    assert_eq!(found.end, 32);
    assert_eq!(&text[found.end..], "after");

    let input = bytes("```\ncode");
    let found = CodeBlock::parse(&input, 0).unwrap();
    assert_eq!(found.node.language(), Some(r(3, 3)));
    assert_eq!(found.node.content(), &vec![r(4, 8)]);
    assert_eq!(found.end, 8);

    let input = bytes("```\n```\n");
    let found = CodeBlock::parse(&input, 0).unwrap();
    assert!(found.node.content().is_empty());
    assert_eq!(found.end, 8);

    let input = bytes("x\n```\na\n\nb\n``` \t\nrest");
    let found = CodeBlock::parse(&input, 2).unwrap();
    assert_eq!(found.node.content(), &vec![r(6, 8), r(8, 9), r(9, 11)]);
    assert_eq!(found.end, 17);
}

#[test]
fn code_blocks_need_a_fence_and_a_line_end() {
    assert!(CodeBlock::parse(&bytes("```"), 0).is_none());
    assert!(CodeBlock::parse(&bytes("```rust"), 0).is_none());
    assert!(CodeBlock::parse(&bytes("``\n"), 0).is_none());
    assert!(CodeBlock::parse(&bytes("text\n"), 0).is_none());
    assert!(CodeBlock::parse(&bytes("```\n"), 4).is_none());
    assert!(CodeBlock::parse(&bytes("```\n"), 9).is_none());
}

#[test]
fn nodes_are_tried_in_order() {
    let input = bytes("# h\n```\nc\n```\nt");
    match parse_node(&input, 0) {
        Some((Node::Header(header), end)) => {
            assert_eq!(header.level(), 1);
            assert_eq!(end, 4);
        }
        _ => panic!("no header"),
    }
    match parse_node(&input, 4) {
        Some((Node::Code(block), end)) => {
            assert_eq!(block.content(), &vec![r(8, 10)]);
            assert_eq!(end, 14);
        }
        _ => panic!("no block of code"),
    }
    match parse_node(&input, 14) {
        Some((Node::Text(text), end)) => {
            assert_eq!(text.segments(), &vec![TextSegment::Plain(r(14, 15))]);
            assert_eq!(end, 15);
        }
        _ => panic!("no text"),
    }
    assert!(parse_node(&input, 15).is_none());
}

#[test]
fn parser_reads_the_whole_text() {
    let text = "# Title\n\nSome **bold** text\n```\ncode\n```\nlast [l](u)";
    let mut parser = MarkdownParser::new(text);
    assert!(parser.nodes_read().is_empty());
    assert_eq!(parser.bytes(), &bytes(text));
    let nodes = parser.as_nodes();
    assert_eq!(nodes.len(), 5);
    assert!(matches!(nodes[0], Node::Header(_)));
    assert!(matches!(nodes[1], Node::Text(_)));
    assert!(matches!(nodes[2], Node::Text(_)));
    assert!(matches!(nodes[3], Node::Code(_)));
    match &nodes[4] {
        Node::Text(last) => assert_eq!(
            last.segments(),
            &vec![
                TextSegment::Plain(r(41, 46)),
                TextSegment::Link { text: r(47, 48), url: r(50, 51) },
            ]
        ),
        _ => panic!("no text"),
    }
    assert_eq!(parser.as_nodes().len(), 5);
    parser.parse();
    assert_eq!(parser.nodes_read().len(), 5);
}

#[test]
fn parser_of_nothing_reads_nothing() {
    let mut parser = MarkdownParser::new("");
    assert!(parser.as_nodes().is_empty());
}
