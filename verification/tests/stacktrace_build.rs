use stacktrace::Section;
use stacktrace::Stacktrace;

#[test]
fn parses_multiple_section_stacktrace_simple() {
    let stacktrace = Stacktrace::from(
        "\
            a::b::Class.method_one\n\
            a::b::Class.method_two\n\
            ",
    );

    assert_eq!(
        Stacktrace {
            sections: vec![Section {
                id: 0,
                slice_common_with_previous_frames: String::new(),
                slice_remainder: String::from("a::b::Class.method_one"),
                child_sections: vec![Section {
                    id: 1,
                    slice_common_with_previous_frames: String::from("a::b::Class"),
                    slice_remainder: String::from(".method_two"),
                    child_sections: Vec::new()
                }]
            }]
        },
        stacktrace
    )
}

#[test]
fn parses_multiple_section_stacktrace_wasm() {
    let stacktrace = Stacktrace::from(
        "\
            __wbg_get_imports/imports.wbg.__wbg_new_abda76e883ba8a5f@http://127.0.0.1:7890/pkg/dot_ix.js:489:13\n\
            dot_ix_playground.wasm.__wbg_new_abda76e883ba8a5f externref shim@http://127.0.0.1:7890/pkg/dot_ix.wasm:wasm-function[25993]:0x6bb546\n\
            dot_ix_playground.wasm.console_error_panic_hook::Error::new::h8adb78d6eba1ab93@http://127.0.0.1:7890/pkg/dot_ix.wasm:wasm-function[16925]:0x636d40\n\
            ",
    );

    assert_eq!(
        Stacktrace {
            sections: vec![
                Section {
                    id: 0,
                    slice_common_with_previous_frames: String::new(),
                    slice_remainder: String::from("__wbg_get_imports/imports.wbg.__wbg_new_abda76e883ba8a5f@http://127.0.0.1:7890/pkg/dot_ix.js:489:13"),
                    child_sections: vec![]
                },
                Section {
                    id: 1,
                    slice_common_with_previous_frames: String::new(),
                    slice_remainder: String::from("dot_ix_playground.wasm.__wbg_new_abda76e883ba8a5f externref shim@http://127.0.0.1:7890/pkg/dot_ix.wasm:wasm-function[25993]:0x6bb546"),
                    child_sections: vec![Section {
                        id: 2,
                        slice_common_with_previous_frames: String::from("dot_ix_playground.wasm"),
                        slice_remainder: String::from(".console_error_panic_hook::Error::new::h8adb78d6eba1ab93@http://127.0.0.1:7890/pkg/dot_ix.wasm:wasm-function[16925]:0x636d40"),
                        child_sections: Vec::new()
                    }]
                },
            ]
        },
        stacktrace
    )
}

/// Collects each section's reconstructed line, pre-order, node before its
/// children before its following siblings.
fn collect_lines(sections: &[Section], out: &mut Vec<String>) {
    for section in sections {
        let mut line = String::from(section.slice_common_with_previous_frames());
        line.push_str(section.slice_remainder());
        out.push(line);
        collect_lines(section.child_sections(), out);
    }
}

/// Collects each section's id, pre-order.
fn collect_ids(sections: &[Section], out: &mut Vec<u32>) {
    for section in sections {
        out.push(section.id());
        collect_ids(section.child_sections(), out);
    }
}

#[test]
fn round_trip_reconstructs_every_line() {
    let input = "\
        java.lang.IllegalArgumentException: foo\n\
        com.example.stacktrace.Example.fail(Example.java:11)\n\
        com.example.stacktrace.Example.run(Example.java:20)\n\
        sun.reflect.NativeMethodAccessorImpl.invoke0(Native Method)\n\
        sun.reflect.NativeMethodAccessorImpl.invoke(NativeMethodAccessorImpl.java:62)\n";
    let stacktrace = Stacktrace::from(input);
    let mut reconstructed = Vec::new();
    collect_lines(&stacktrace.sections, &mut reconstructed);
    let expected: Vec<String> = input.lines().map(String::from).collect();
    assert_eq!(expected, reconstructed);
}

#[test]
fn round_trip_on_crlf_and_blank_lines() {
    let input = "alpha.one\r\nalpha.two\n\nbeta one\nbeta two\r\n";
    let stacktrace = Stacktrace::from(input);
    let mut reconstructed = Vec::new();
    collect_lines(&stacktrace.sections, &mut reconstructed);
    let expected: Vec<String> = input.lines().map(String::from).collect();
    assert_eq!(expected, reconstructed);
}

#[test]
fn ids_are_consecutive_in_creation_order() {
    let input = "\
        a::b::Class.method_one\n\
        a::b::Class.method_two\n\
        a::b::Other.method\n\
        unrelated\n\
        a::b::Class.method_three\n";
    let stacktrace = Stacktrace::from(input);
    let mut ids = Vec::new();
    collect_ids(&stacktrace.sections, &mut ids);
    let expected: Vec<u32> = (0..ids.len() as u32).collect();
    assert_eq!(expected, ids);
}

#[test]
fn builder_is_idempotent() {
    let input = "\
        org.spring.Filter.doFilter(Filter.java:1)\n\
        org.spring.Chain.next(Chain.java:2)\n\
        org.spring.Chain.next(Chain.java:3)\n";
    let first = Stacktrace::from(input);
    let second = Stacktrace::from(input);
    assert_eq!(first, second);
}

#[test]
fn single_line_input_yields_one_section() {
    let stacktrace = Stacktrace::from("just one frame\n");
    assert_eq!(1, stacktrace.sections.len());
    let section = &stacktrace.sections[0];
    assert_eq!(0, section.id());
    assert_eq!("", section.slice_common_with_previous_frames());
    assert_eq!("just one frame", section.slice_remainder());
    assert!(section.child_sections().is_empty());
}

#[test]
fn single_line_without_newline_yields_one_section() {
    let stacktrace = Stacktrace::from("frame");
    assert_eq!(1, stacktrace.sections.len());
    assert_eq!("frame", stacktrace.sections[0].slice_remainder());
}

#[test]
fn empty_input_yields_no_sections() {
    let stacktrace = Stacktrace::from("");
    assert!(stacktrace.sections.is_empty());
    assert_eq!(Stacktrace::default(), stacktrace);
}

#[test]
fn common_prefix_never_splits_an_identifier() {
    // The raw common prefix "prefix_aa" of the second line would end inside
    // the identifier "prefix_aab"; the boundary snaps back to just "common".
    let stacktrace = Stacktrace::from("common.prefix_aaa\ncommon.prefix_aab\n");
    assert_eq!(1, stacktrace.sections.len());
    let child = &stacktrace.sections[0].child_sections()[0];
    assert_eq!("common", child.slice_common_with_previous_frames());
    assert_eq!(".prefix_aab", child.slice_remainder());
}

#[test]
fn equal_consecutive_lines_nest_once() {
    // The second line repeats the first, so it factors out "a" and nests
    // under it; the third factors out "a" again, which no longer strictly
    // grows the factored length, so it pops back and becomes a second child.
    let stacktrace = Stacktrace::from("a.b\na.b\na.b\n");
    let mut reconstructed = Vec::new();
    collect_lines(&stacktrace.sections, &mut reconstructed);
    assert_eq!(vec!["a.b", "a.b", "a.b"], reconstructed);
    let mut ids = Vec::new();
    collect_ids(&stacktrace.sections, &mut ids);
    assert_eq!(vec![0, 1, 2], ids);
    assert_eq!(1, stacktrace.sections.len());
    assert_eq!(2, stacktrace.sections[0].child_sections().len());
}

#[test]
fn prefix_without_separator_collapses_to_zero() {
    // "a" and "a.b" match on "a", but the matched region holds no separator,
    // so the boundary collapses and the lines stay siblings.
    let stacktrace = Stacktrace::from("a\na.b\n");
    assert_eq!(2, stacktrace.sections.len());
    assert_eq!("", stacktrace.sections[1].slice_common_with_previous_frames());
    assert_eq!("a.b", stacktrace.sections[1].slice_remainder());
}

#[test]
fn lines_without_separators_share_no_prefix() {
    // "abcde" and "abcdx" match on "abcd", but with no separator anywhere
    // the boundary collapses to zero.
    let stacktrace = Stacktrace::from("abcde\nabcdx\n");
    assert_eq!(2, stacktrace.sections.len());
    assert_eq!("", stacktrace.sections[1].slice_common_with_previous_frames());
    assert_eq!("abcdx", stacktrace.sections[1].slice_remainder());
}

#[test]
fn word_characters_are_alphanumerics_and_underscore() {
    assert!(Stacktrace::is_word_character('a'));
    assert!(Stacktrace::is_word_character('Z'));
    assert!(Stacktrace::is_word_character('7'));
    assert!(Stacktrace::is_word_character('_'));
    assert!(!Stacktrace::is_word_character('.'));
    assert!(!Stacktrace::is_word_character(':'));
    assert!(!Stacktrace::is_word_character(' '));
    assert!(Stacktrace::is_separator('/'));
    assert!(!Stacktrace::is_separator('x'));
}

#[test]
fn deeply_nesting_trace_builds_a_chain() {
    let input = "pkg.mod\npkg.mod.cls\npkg.mod.cls.fn\n";
    let stacktrace = Stacktrace::from(input);
    assert_eq!(1, stacktrace.sections.len());
    let first = &stacktrace.sections[0];
    assert_eq!("pkg.mod", first.slice_remainder());
    let second = &first.child_sections()[0];
    assert_eq!("pkg", second.slice_common_with_previous_frames());
    assert_eq!(".mod.cls", second.slice_remainder());
    let third = &second.child_sections()[0];
    assert_eq!("pkg.mod", third.slice_common_with_previous_frames());
    assert_eq!(".cls.fn", third.slice_remainder());
    assert!(third.child_sections().is_empty());
}

#[test]
fn unicode_identifiers_snap_at_the_separator() {
    // Non-ASCII letters are word characters, so the boundary still falls on
    // the dot, and slicing counts characters, not bytes.
    let stacktrace = Stacktrace::from("p\u{e4}ck.m\u{f6}d_a\np\u{e4}ck.m\u{f6}d_b\n");
    assert_eq!(1, stacktrace.sections.len());
    let child = &stacktrace.sections[0].child_sections()[0];
    assert_eq!("p\u{e4}ck", child.slice_common_with_previous_frames());
    assert_eq!(".m\u{f6}d_b", child.slice_remainder());
}

#[test]
fn indented_frames_factor_including_indentation() {
    // Comparison is character-exact, so shared indentation is part of the
    // factored prefix.
    let stacktrace = Stacktrace::from("   at a.b.c(X.java:1)\n   at a.b.d(X.java:2)\n");
    assert_eq!(1, stacktrace.sections.len());
    let child = &stacktrace.sections[0].child_sections()[0];
    assert_eq!("   at a.b", child.slice_common_with_previous_frames());
    assert_eq!(".d(X.java:2)", child.slice_remainder());
}
