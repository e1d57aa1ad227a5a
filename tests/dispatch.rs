use asm_lines::statements::{
    label_kind, parse_statement, Directive, File, FilePath, GenericDirective, Instruction, Label,
    LabelKind, Loc, Statement,
};
use asm_lines::text::good_for_label;

fn one(line: &str) -> Statement<'_> {
    let (rest, st) = parse_statement(line).unwrap();
    assert_eq!(rest, "");
    st
}

#[test]
fn file_directive_wins_over_generic() {
    assert_eq!(
        one("\t.file\t9 \"/a/b\"\n"),
        Statement::Directive(Directive::File(File {
            index: 9,
            path: FilePath::FullPath("/a/b"),
            md5: None,
        }))
    );
}

#[test]
fn loc_directive_with_flags() {
    match one("\t.loc\t31 26 29 is_stmt 0\n") {
        Statement::Directive(Directive::Loc(l)) => {
            assert_eq!((l.file, l.line, l.column), (31, 26, 29));
            assert_eq!(l.extra, Some("is_stmt 0"));
        }
        other => panic!("{other:?}"),
    }
}

#[test]
fn file_directive_with_dir_name_and_digest() {
    match one("\t.file\t9 \"/home/ubuntu/buf-test\" \"src/main.rs\" 74ab618651b843a815bf806bd6c50c19\n") {
        Statement::Directive(Directive::File(f)) => {
            assert_eq!(
                f.path,
                FilePath::PathAndFileName { path: "/home/ubuntu/buf-test", name: "src/main.rs" }
            );
            assert_eq!(f.md5, Some("74ab618651b843a815bf806bd6c50c19"));
            assert_eq!(f.path.as_full_path(), "/home/ubuntu/buf-test/src/main.rs");
        }
        other => panic!("{other:?}"),
    }
}

#[test]
fn label_kinds_through_the_dispatcher() {
    assert_eq!(
        one(".Lexception0:\n"),
        Statement::Label(Label { id: ".Lexception0", kind: LabelKind::Local })
    );
    assert_eq!(one("LBB0_1:\n"), Statement::Label(Label { id: "LBB0_1", kind: LabelKind::Local }));
    assert_eq!(one("Ltmp12:\n"), Statement::Label(Label { id: "Ltmp12", kind: LabelKind::Temp }));
    assert_eq!(
        one("GCC_except_table0:\n"),
        Statement::Label(Label { id: "GCC_except_table0", kind: LabelKind::Unknown })
    );
    assert_eq!(label_kind("_ZN3foo3barE"), LabelKind::Global);
    assert_eq!(label_kind("_RNvC1a"), LabelKind::Global);
    assert_eq!(label_kind(".Ltmp3"), LabelKind::Temp);
    assert_eq!(label_kind(""), LabelKind::Unknown);
}

#[test]
fn regular_instruction() {
    assert_eq!(
        one("\tmovq %rax, %rbx\n"),
        Statement::Instruction(Instruction { op: "movq", args: Some("%rax, %rbx") })
    );
    assert_eq!(
        one("\tb.ne\t.LBB0_2\n"),
        Statement::Instruction(Instruction { op: "b.ne", args: Some(".LBB0_2") })
    );
    assert_eq!(
        one("\tend_function\n"),
        Statement::Instruction(Instruction { op: "end_function", args: None })
    );
}

#[test]
fn comment_instruction() {
    assert_eq!(
        one("\t## InlineAsm Start\n"),
        Statement::Instruction(Instruction { op: "## InlineAsm Start", args: None })
    );
    assert_eq!(
        Instruction::parse("\t#APP\nnext"),
        Some(("\nnext", Instruction { op: "#APP", args: None }))
    );
}

#[test]
fn loc_equality_ignores_column_and_flags() {
    let a = Loc { file: 1, line: 2, column: 3, extra: None };
    let b = Loc { file: 1, line: 2, column: 99, extra: Some("x") };
    let c = Loc { file: 1, line: 3, column: 3, extra: None };
    assert_eq!(a, b);
    assert_ne!(a, c);
    assert_eq!(Loc::default(), Loc { file: 0, line: 0, column: 7, extra: None });
}

#[test]
fn end_of_function_labels() {
    assert!(one("Lfunc_end3:\n").is_end_of_fn());
    assert!(one(".Lfunc_end3:\n").is_end_of_fn());
    assert!(!one("foo:\n").is_end_of_fn());
    assert!(!one("\t.Lfunc_end3\n").is_end_of_fn());
}

#[test]
fn section_set_and_generic_directives() {
    let s = one("\t.section\t.text._ZN4core3fmt9Formatter9write_str17h,\"ax\",@progbits  \n");
    assert_eq!(
        s,
        Statement::Directive(Directive::SectionStart(
            ".text._ZN4core3fmt9Formatter9write_str17h,\"ax\",@progbits"
        ))
    );
    assert!(s.is_section_start());
    assert!(!s.is_global());
    assert_eq!(one(".set L_x, 4\n"), Statement::Directive(Directive::SetSymbol(" L_x, 4")));
    assert_eq!(
        one(".subsections_via_symbols\n"),
        Statement::Directive(Directive::SubsectionsViaSym)
    );
    let g = one("\t.globl\tmain\n");
    assert_eq!(g, Statement::Directive(Directive::Generic(GenericDirective("globl\tmain"))));
    assert!(g.is_global());
    assert!(!g.is_section_start());
    assert!(!one("\t.globl main\n").is_global());
}

#[test]
fn blank_unknown_and_last_lines() {
    assert_eq!(parse_statement("\nnext\n"), Some(("next\n", Statement::Nothing)));
    assert_eq!(parse_statement("???\n"), Some(("", Statement::Dunno("???"))));
    assert_eq!(parse_statement("  indented\nx"), Some(("x", Statement::Dunno("  indented"))));
    assert_eq!(parse_statement("\tret"), Some(("", Statement::Dunno("\tret"))));
    assert_eq!(parse_statement("foo:"), Some(("", Statement::Dunno("foo:"))));
    assert_eq!(
        parse_statement("\tret\n"),
        Some(("", Statement::Instruction(Instruction { op: "ret", args: None })))
    );
    assert_eq!(parse_statement(""), None);
}

#[test]
fn trailing_text_of_a_line_is_dropped() {
    assert_eq!(
        parse_statement("foo: # comment\nbar:\n"),
        Some(("bar:\n", Statement::Label(Label { id: "foo", kind: LabelKind::Unknown })))
    );
}

#[test]
fn malformed_file_and_loc_fall_through() {
    assert_eq!(
        one("\t.loc\t1 99999999999999999999 3\n"),
        Statement::Directive(Directive::Generic(GenericDirective("loc\t1 99999999999999999999 3")))
    );
    assert_eq!(
        one("\t.file\t9 /a/b\n"),
        Statement::Directive(Directive::Generic(GenericDirective("file\t9 /a/b")))
    );
    assert_eq!(Loc::parse("\t.loc\t18446744073709551615 0 0").map(|(_, l)| l.file), Some(u64::MAX));
    assert_eq!(Loc::parse("\t.loc\t18446744073709551616 0 0"), None);
}

#[test]
fn joined_paths() {
    assert_eq!(FilePath::PathAndFileName { path: "/a/", name: "b" }.as_full_path(), "/a/b");
    assert_eq!(FilePath::PathAndFileName { path: "/a", name: "/c/d" }.as_full_path(), "/c/d");
    assert_eq!(FilePath::PathAndFileName { path: "", name: "b" }.as_full_path(), "b");
    assert_eq!(FilePath::FullPath("/x/y").as_full_path(), "/x/y");
}

#[test]
fn label_chars() {
    assert!(good_for_label('$'));
    assert!(good_for_label('Z'));
    assert!(!good_for_label('@'));
    assert!(!good_for_label(':'));
}

#[test]
fn white_space_matches_std_on_every_char() {
    for u in 0..=0x10FFFFu32 {
        if let Some(c) = char::from_u32(u) {
            assert_eq!(asm_lines::text::is_white(c), c.is_whitespace(), "{u:#x}");
        }
    }
}

#[test]
fn section_text_is_trimmed_of_unicode_space() {
    assert_eq!(
        one("\t.section\u{3000}.data\u{a0}\t\n"),
        Statement::Directive(Directive::SectionStart(".data"))
    );
}
