use stacktrace::Group;
use stacktrace::GroupOrSegment;
use stacktrace::Line;
use stacktrace::RenderMode;
use stacktrace::Segment;

fn seg(text: &str, separator: Option<&str>) -> GroupOrSegment {
    GroupOrSegment::Segment(Segment {
        text: String::from(text),
        separator: separator.map(String::from),
    })
}

fn plain_group(value: Vec<GroupOrSegment>, separator: Option<&str>) -> GroupOrSegment {
    GroupOrSegment::Group(Box::new(Group {
        value,
        bracket_open: None,
        bracket_close: None,
        separator: separator.map(String::from),
    }))
}

#[test]
fn tokenizes_impl_block_line() {
    let (group, consumed) = Group::parse("<impl tachys::view::RenderHtml for (A,)>", 0);
    assert_eq!(40, consumed);
    assert_eq!(
        Group {
            value: vec![
                seg("impl", Some(" ")),
                plain_group(
                    vec![seg("tachys", Some("::")), seg("view", Some("::")), seg("RenderHtml", None)],
                    Some(" "),
                ),
                seg("for", Some(" ")),
                GroupOrSegment::Group(Box::new(Group {
                    value: vec![seg("A,", None)],
                    bracket_open: Some('('),
                    bracket_close: Some(')'),
                    separator: None,
                })),
            ],
            bracket_open: Some('<'),
            bracket_close: Some('>'),
            separator: None,
        },
        group
    );
}

#[test]
fn tokenizes_namespaced_call_into_one_group() {
    let line = Line::from("a::b::Class.method_one");
    assert!(line.leading_whitespace.is_empty());
    assert_eq!(
        vec![Group {
            value: vec![
                seg("a", Some("::")),
                seg("b", Some("::")),
                seg("Class", Some(".")),
                seg("method_one", None),
            ],
            bracket_open: None,
            bracket_close: None,
            separator: None,
        }],
        line.groups
    );
}

#[test]
fn space_separates_groups_where_separators_do_not() {
    // `a::b::C` is one group; `a::b C` is two.
    let one = Line::from("a::b::C");
    assert_eq!(1, one.groups.len());
    let two = Line::from("a::b C");
    assert_eq!(2, two.groups.len());
    assert_eq!(
        Group {
            value: vec![seg("a", Some("::")), seg("b", None)],
            bracket_open: None,
            bracket_close: None,
            separator: Some(String::from(" ")),
        },
        two.groups[0]
    );
    assert_eq!(
        Group {
            value: vec![seg("C", None)],
            bracket_open: None,
            bracket_close: None,
            separator: None,
        },
        two.groups[1]
    );
}

#[test]
fn leading_whitespace_is_split_off() {
    let line = Line::from("    at com.example.App.run(App.java:21)");
    assert_eq!("    ", line.leading_whitespace);
    assert_eq!("at", match &line.groups[0].value[0] {
        GroupOrSegment::Segment(s) => s.text.as_str(),
        GroupOrSegment::Group(_) => "",
    });
}

#[test]
fn nested_closure_brackets_nest_groups() {
    let line = Line::from("{{closure}}");
    assert_eq!(
        vec![Group {
            value: vec![GroupOrSegment::Group(Box::new(Group {
                value: vec![seg("closure", None)],
                bracket_open: Some('{'),
                bracket_close: Some('}'),
                separator: None,
            }))],
            bracket_open: Some('{'),
            bracket_close: Some('}'),
            separator: None,
        }],
        line.groups
    );
}

#[test]
fn unterminated_bracket_closes_best_effort() {
    let line = Line::from("<impl Foo");
    assert_eq!(
        vec![Group {
            value: vec![seg("impl", Some(" ")), seg("Foo", None)],
            bracket_open: Some('<'),
            bracket_close: Some('>'),
            separator: None,
        }],
        line.groups
    );
}

#[test]
fn mismatched_brackets_are_kept_permissively() {
    // Bracket depth is tracked, not bracket type: `<a]` closes with `]`.
    let line = Line::from("<a]");
    assert_eq!(
        vec![Group {
            value: vec![seg("a", None)],
            bracket_open: Some('<'),
            bracket_close: Some(']'),
            separator: None,
        }],
        line.groups
    );
}

#[test]
fn tokenizer_is_total_on_awkward_input() {
    // None of these may panic or fail; every character is consumed somewhere.
    let inputs = [
        "",
        " ",
        "   ",
        ">>>>",
        "<<<<",
        "::::",
        "....",
        "::",
        ".",
        ":",
        "a<b",
        "()",
        "( )",
        "a..b",
        "a:::b",
        "weird)mix(of<things]",
        "\u{3b1}\u{3b2}::\u{3b3}",
    ];
    for input in inputs {
        let line = Line::from(input);
        if input.is_empty() {
            assert!(line.groups.is_empty());
        } else {
            assert!(!line.groups.is_empty());
        }
    }
}

#[test]
fn tokenizer_is_total_on_deep_nesting() {
    let mut input = String::new();
    for _ in 0..200 {
        input.push('<');
    }
    input.push('x');
    let line = Line::from(input.as_str());
    assert_eq!(1, line.groups.len());
}

#[test]
fn empty_brackets_hold_one_empty_segment() {
    // A group's value is never empty: `<>` wraps a single empty segment.
    let line = Line::from("<>");
    assert_eq!(
        vec![Group {
            value: vec![seg("", None)],
            bracket_open: Some('<'),
            bracket_close: Some('>'),
            separator: None,
        }],
        line.groups
    );
}

#[test]
fn line_parse_matches_line_from() {
    let a = Line::parse("x::y z");
    let b = Line::from("x::y z");
    assert_eq!(a, b);
}

#[test]
fn render_modes_are_distinct() {
    assert_eq!(RenderMode::Visible, RenderMode::Visible);
    assert_ne!(RenderMode::Visible, RenderMode::Faded);
    assert_ne!(RenderMode::Faded, RenderMode::Collapsed);
    let copied: RenderMode = RenderMode::Collapsed;
    assert_eq!(copied, RenderMode::Collapsed);
}

#[test]
fn whitespace_only_line_keeps_empty_leading_slice() {
    // With no non-whitespace character at all, the leading slice stays empty
    // and the whole line is tokenized: each lone space is its own group.
    let line = Line::from("   ");
    assert_eq!("", line.leading_whitespace);
    assert_eq!(3, line.groups.len());
    assert_eq!(
        Group {
            value: vec![seg("", Some(" "))],
            bracket_open: None,
            bracket_close: None,
            separator: None,
        },
        line.groups[0]
    );
}

#[test]
fn unicode_whitespace_counts_as_leading() {
    let line = Line::from("\u{3000}x");
    assert_eq!("\u{3000}", line.leading_whitespace);
    assert_eq!(1, line.groups.len());
}
