use asm_lines::statements::{parse_statement, Directive, Loc, Statement};

fn reread(line: &str) {
    let (_, st) = parse_statement(line).unwrap();
    let text = st.to_text();
    let again = format!("{text}\n");
    let (rest, st2) = parse_statement(&again).unwrap();
    assert_eq!(rest, "");
    assert_eq!(st2, st, "{line:?} rendered as {text:?}");
}

#[test]
fn text_of_statements() {
    let text = |l: &str| parse_statement(l).unwrap().1.to_text();
    assert_eq!(text("\t.loc\t31 26 29 is_stmt 0\n"), "\t.loc\t31 26 29 is_stmt 0");
    assert_eq!(text("\t.loc\t1    2\t3\n"), "\t.loc\t1 2 3");
    assert_eq!(text("\t.file\t9 \"/a\"   \"b.rs\"\tff00\n"), "\t.file\t9 \"/a\" \"b.rs\" ff00");
    assert_eq!(text("\"a b\":\n"), "\"a b\":");
    assert_eq!(text("main:\n"), "main:");
    assert_eq!(text("\tmovq\t%rax,  %rbx\n"), "\tmovq %rax,  %rbx");
    assert_eq!(text("\t.section   .text  \n"), "\t.section\t.text");
    assert_eq!(text("\n"), "");
    let big = Statement::Directive(Directive::Loc(Loc {
        file: u64::MAX,
        line: 0,
        column: 10,
        extra: None,
    }));
    assert_eq!(big.to_text(), "\t.loc\t18446744073709551615 0 10");
}

#[test]
fn rereading_text_gives_the_same_statement() {
    for line in [
        "\t.file\t9 \"/a/b\"\n",
        "\t.file\t9 \"/home/ubuntu/buf-test\" \"src/main.rs\" 74ab618651b843a815bf806bd6c50c19\n",
        "\t.file\t1 \"x\" 12ab\n",
        "\t.loc\t31 26 29 is_stmt 0\n",
        "\t.loc\t1\t2  3\n",
        ".Lexception0:\n",
        "\"?dtor$3@?0?_ZN4rust4main17h90585feb19c01afdE@4HA\":\n",
        "\"plain\":\n",
        "\tmovq %rax, %rbx\n",
        "\tmovq\t\t%rax\n",
        "\tret   \n",
        "\t## comment\n",
        "\t.\n",
        ".set L_a, 4\n",
        ".subsections_via_symbols trailing\n",
        "\t.section\t.text.foo,\"ax\",@progbits\n",
        "\t.section   \n",
        "\t.globl\tmain\n",
        "\n",
        "what is this\n",
    ] {
        reread(line);
    }
}

#[test]
fn decimal_text_of_numbers() {
    for n in [0u64, 7, 10, 99, 100, 12345, 1 << 40, u64::MAX - 1, u64::MAX] {
        assert_eq!(asm_lines::render::decimal(n), n.to_string());
    }
}
