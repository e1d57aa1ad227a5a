//! Laws that relate the grammar to the text of what it reads.

use vstd::prelude::*;
use crate::model::{
    after_first_line, first_line,
    LineStatement, directive_of, dot_tag, file_of, file_tag, instruction_of, label_kind_of,
    label_of, loc_of, loc_tag, quoted_at, section_tag, set_tag, ssvs_tag, statement_of,
};
use crate::render::{
    bare_name, dec_digits, lemma_dec_digits, lemma_read_back, opt_field, quote, rendered,
};
use crate::text::{
    CharClass, in_class, is_ascii_digit, lemma_has_tag_chars, lemma_scan, lemma_scan_exact,
    lemma_trailing_space_start, read_u64, scan, trailing_space_start, trimmed, white_space,
};

verus! {

/// No char of `s` is a line feed.
pub open spec fn newline_free(s: Seq<char>) -> bool {
    forall|j: int| 0 <= j < s.len() ==> #[trigger] s[j] != '\n'
}

/// No text that a statement holds has a line feed in it.
pub open spec fn fields_newline_free(st: LineStatement) -> bool {
    match st {
        LineStatement::Label { id, .. } => newline_free(id),
        LineStatement::File { path, name, md5, .. } => newline_free(path) && (name matches Some(
            n,
        ) ==> newline_free(n)) && (md5 matches Some(m) ==> newline_free(m)),
        LineStatement::Loc { extra, .. } => (extra matches Some(x) ==> newline_free(x)),
        LineStatement::Assign(t) => newline_free(t),
        LineStatement::SectionStart(t) => newline_free(t),
        LineStatement::Generic(t) => newline_free(t),
        LineStatement::Instruction { op, args } => newline_free(op) && (args matches Some(a)
            ==> newline_free(a)),
        LineStatement::Dunno(t) => newline_free(t),
        _ => true,
    }
}

proof fn lemma_newline_free_concat(a: Seq<char>, b: Seq<char>)
    requires
        newline_free(a),
        newline_free(b),
    ensures
        newline_free(a + b),
{
    assert forall|j: int| 0 <= j < (a + b).len() implies #[trigger] (a + b)[j] != '\n' by {
        if j < a.len() {
            assert((a + b)[j] == a[j]);
        } else {
            assert((a + b)[j] == b[j - a.len()]);
        }
    }
}

proof fn lemma_fixed_text_newline_free()
    ensures
        newline_free(seq![' ']),
        newline_free(seq![':']),
        newline_free(seq!['"']),
        newline_free(seq!['\t']),
        newline_free(file_tag()),
        newline_free(loc_tag()),
        newline_free(set_tag()),
        newline_free(ssvs_tag()),
        newline_free(section_tag()),
        newline_free(dot_tag()),
{
}

proof fn lemma_digits_newline_free(n: nat)
    ensures
        newline_free(dec_digits(n)),
{
    lemma_dec_digits(n);
}

proof fn lemma_quote_newline_free(t: Seq<char>)
    requires
        newline_free(t),
    ensures
        newline_free(quote(t)),
{
    lemma_fixed_text_newline_free();
    lemma_newline_free_concat(seq!['"'], t);
    lemma_newline_free_concat(seq!['"'] + t, seq!['"']);
}

proof fn lemma_opt_field_newline_free(o: Option<Seq<char>>)
    requires
        (o matches Some(x) ==> newline_free(x)),
    ensures
        newline_free(opt_field(o)),
{
    lemma_fixed_text_newline_free();
    if let Some(x) = o {
        lemma_newline_free_concat(seq![' '], x);
    }
}

/// The text of a statement has no line feed where the texts it holds have none.
proof fn lemma_rendered_newline_free(st: LineStatement)
    requires
        fields_newline_free(st),
    ensures
        newline_free(rendered(st)),
{
    lemma_fixed_text_newline_free();
    match st {
        LineStatement::Label { id, .. } => {
            lemma_newline_free_concat(id, seq![':']);
            lemma_quote_newline_free(id);
            lemma_newline_free_concat(quote(id), seq![':']);
        },
        LineStatement::File { index, path, name, md5 } => {
            let d = dec_digits(index as nat);
            lemma_digits_newline_free(index as nat);
            lemma_quote_newline_free(path);
            let nf = match name {
                Some(n) => seq![' '] + quote(n),
                None => Seq::empty(),
            };
            if let Some(n) = name {
                lemma_quote_newline_free(n);
                lemma_newline_free_concat(seq![' '], quote(n));
            }
            assert(newline_free(nf));
            lemma_opt_field_newline_free(md5);
            lemma_newline_free_concat(file_tag(), d);
            lemma_newline_free_concat(file_tag() + d, seq![' ']);
            lemma_newline_free_concat(file_tag() + d + seq![' '], quote(path));
            lemma_newline_free_concat(file_tag() + d + seq![' '] + quote(path), nf);
            lemma_newline_free_concat(file_tag() + d + seq![' '] + quote(path) + nf, opt_field(md5));
        },
        LineStatement::Loc { file, line, column, extra } => {
            let d1 = dec_digits(file as nat);
            let d2 = dec_digits(line as nat);
            let d3 = dec_digits(column as nat);
            lemma_digits_newline_free(file as nat);
            lemma_digits_newline_free(line as nat);
            lemma_digits_newline_free(column as nat);
            lemma_opt_field_newline_free(extra);
            lemma_newline_free_concat(loc_tag(), d1);
            lemma_newline_free_concat(loc_tag() + d1, seq![' ']);
            lemma_newline_free_concat(loc_tag() + d1 + seq![' '], d2);
            lemma_newline_free_concat(loc_tag() + d1 + seq![' '] + d2, seq![' ']);
            lemma_newline_free_concat(loc_tag() + d1 + seq![' '] + d2 + seq![' '], d3);
            lemma_newline_free_concat(
                loc_tag() + d1 + seq![' '] + d2 + seq![' '] + d3,
                opt_field(extra),
            );
        },
        LineStatement::Assign(t) => {
            lemma_newline_free_concat(set_tag(), t);
        },
        LineStatement::SectionStart(t) => {
            lemma_newline_free_concat(section_tag(), seq!['\t']);
            lemma_newline_free_concat(section_tag() + seq!['\t'], t);
        },
        LineStatement::Generic(t) => {
            lemma_newline_free_concat(dot_tag(), t);
        },
        LineStatement::Instruction { op, args } => {
            lemma_opt_field_newline_free(args);
            lemma_newline_free_concat(seq!['\t'], op);
            lemma_newline_free_concat(seq!['\t'] + op, opt_field(args));
        },
        _ => {},
    }
}

/// No part of a line without line feeds has one.
proof fn lemma_subrange_newline_free(line: Seq<char>)
    requires
        newline_free(line),
    ensures
        forall|a: int, b: int|
            0 <= a <= b <= line.len() ==> #[trigger] newline_free(line.subrange(a, b)),
{
    assert forall|a: int, b: int| 0 <= a <= b <= line.len() implies #[trigger] newline_free(
        line.subrange(a, b),
    ) by {
        assert forall|j: int| 0 <= j < b - a implies #[trigger] line.subrange(a, b)[j] != '\n' by {
            assert(line.subrange(a, b)[j] == line[a + j]);
        }
    }
}

proof fn lemma_scan_to_end(s: Seq<char>, i: int)
    requires
        0 <= i <= s.len(),
        forall|j: int| 0 <= j < s.len() ==> #[trigger] s[j] != '\n',
    ensures
        scan(s, i, CharClass::NotNewline) == s.len(),
{
    lemma_scan_exact(s, i, CharClass::NotNewline, s.len() as int);
}

/// No directive starts with a tab and then a char other than `.`.
proof fn lemma_no_directive_after_tab(r: Seq<char>)
    requires
        r.len() >= 2,
        r[0] == '\t',
        r[1] != '.',
    ensures
        directive_of(r) is None,
{
    lemma_has_tag_chars(r, 0, file_tag());
    lemma_has_tag_chars(r, 0, loc_tag());
    lemma_has_tag_chars(r, 0, set_tag());
    lemma_has_tag_chars(r, 0, ssvs_tag());
    lemma_has_tag_chars(r, 0, section_tag());
    lemma_has_tag_chars(r, 0, dot_tag());
    assert(file_tag()[1] == '.' && loc_tag()[1] == '.' && section_tag()[1] == '.' && dot_tag()[1]
        == '.' && set_tag()[0] == '.' && ssvs_tag()[0] == '.');
}

/// A label reads back from its text.
proof fn lemma_label_reads_back(id: Seq<char>)
    requires
        id.len() > 0,
        forall|j: int| 0 <= j < id.len() ==> #[trigger] id[j] != '"',
    ensures
        statement_of(rendered((LineStatement::Label { id, kind: label_kind_of(id) })))
            == (LineStatement::Label { id, kind: label_kind_of(id) }),
{
    let st = LineStatement::Label { id, kind: label_kind_of(id) };
    let r = rendered(st);
    let n = id.len() as int;
    if bare_name(id) {
        assert(r == id + seq![':']);
        assert forall|j: int| 0 <= j < n implies in_class(CharClass::LabelChar, #[trigger] r[j]) by {
            assert(r[j] == id[j]);
        }
        lemma_scan_exact(r, 0, CharClass::LabelChar, n);
        assert(r.subrange(0, n) =~= id);
    } else {
        assert(r == quote(id) + seq![':']);
        assert(r[0] == '"');
        lemma_scan_exact(r, 0, CharClass::LabelChar, 0);
        assert forall|j: int| 1 <= j < n + 1 implies in_class(CharClass::NotQuote, #[trigger] r[j]) by {
            assert(r[j] == id[j - 1]);
        }
        assert(r[n + 1] == '"' && r[n + 2] == ':');
        lemma_scan_exact(r, 1, CharClass::NotQuote, n + 1);
        assert(r.subrange(1, n + 1) =~= id);
    }
    assert(label_of(r) == Some((st, r.len() as int)));
}

/// An instruction with an opcode reads back from its text.
proof fn lemma_instruction_reads_back(op: Seq<char>, args: Option<Seq<char>>)
    requires
        op.len() > 0,
        op[0] != '.',
        forall|j: int| 0 <= j < op.len() ==> in_class(CharClass::OpChar, #[trigger] op[j]),
        (args matches Some(a) ==> (forall|j: int| 0 <= j < a.len() ==> #[trigger] a[j] != '\n')
            && (a.len() == 0 || !in_class(CharClass::Blank, a[0]))),
    ensures
        statement_of(rendered((LineStatement::Instruction { op, args })))
            == (LineStatement::Instruction { op, args }),
{
    let st = LineStatement::Instruction { op, args };
    let r = rendered(st);
    let n = op.len() as int;
    assert(r[0] == '\t' && r[1] == op[0]);
    lemma_scan_exact(r, 0, CharClass::LabelChar, 0);
    lemma_no_directive_after_tab(r);
    assert forall|j: int| 1 <= j < n + 1 implies in_class(CharClass::OpChar, #[trigger] r[j]) by {
        assert(r[j] == op[j - 1]);
    }
    assert(r.subrange(1, n + 1) =~= op);
    match args {
        Some(a) => {
            assert(r == seq!['\t'] + op + (seq![' '] + a));
            assert(r[n + 1] == ' ');
            lemma_scan_exact(r, 1, CharClass::OpChar, n + 1);
            if a.len() > 0 {
                assert(r[n + 2] == a[0]);
            }
            lemma_scan_exact(r, n + 1, CharClass::Blank, n + 2);
            assert forall|j: int| n + 2 <= j < r.len() implies r[j] != '\n' by {
                assert(r[j] == a[j - n - 2]);
            }
            lemma_scan_exact(r, n + 2, CharClass::NotNewline, r.len() as int);
            assert(r.subrange(n + 2, r.len() as int) =~= a);
        },
        None => {
            assert(r =~= seq!['\t'] + op);
            lemma_scan_exact(r, 1, CharClass::OpChar, n + 1);
            lemma_scan_exact(r, n + 1, CharClass::Blank, n + 1);
        },
    }
    assert(instruction_of(r) == Some((st, r.len() as int)));
}

/// A `.subsections_via_symbols` directive reads back from its text.
proof fn lemma_ssvs_reads_back()
    ensures
        statement_of(rendered(LineStatement::SubsectionsViaSym)) == LineStatement::SubsectionsViaSym,
{
    let r = ssvs_tag();
    assert forall|j: int| 0 <= j < 24 implies in_class(CharClass::LabelChar, #[trigger] r[j]) by {}
    lemma_scan_exact(r, 0, CharClass::LabelChar, 24);
    lemma_has_tag_chars(r, 0, file_tag());
    lemma_has_tag_chars(r, 0, loc_tag());
    lemma_has_tag_chars(r, 0, set_tag());
    assert(r.subrange(0, 24) =~= ssvs_tag());
    assert(r[0] == '.' && r[2] == 'u');
    assert(file_tag()[0] == '\t' && loc_tag()[0] == '\t' && set_tag()[2] == 'e');
}

/// A `.loc` directive reads back from its text.
#[verifier::rlimit(100)]
#[verifier::spinoff_prover]
proof fn lemma_loc_reads_back(file: u64, line: u64, column: u64, extra: Option<Seq<char>>)
    requires
        (extra matches Some(x) ==> x.len() > 0 && forall|j: int|
            0 <= j < x.len() ==> #[trigger] x[j] != '\n'),
    ensures
        statement_of(rendered((LineStatement::Loc { file, line, column, extra })))
            == (LineStatement::Loc { file, line, column, extra }),
{
    let st = LineStatement::Loc { file, line, column, extra };
    let r = rendered(st);
    let d1 = dec_digits(file as nat);
    let d2 = dec_digits(line as nat);
    let d3 = dec_digits(column as nat);
    lemma_dec_digits(file as nat);
    lemma_dec_digits(line as nat);
    lemma_dec_digits(column as nat);
    let pre1 = loc_tag() + d1;
    let pre2 = pre1 + seq![' '] + d2;
    let pre3 = pre2 + seq![' '] + d3;
    assert(r == pre3 + opt_field(extra));
    let e1: int = 6 + d1.len() as int;
    let e2: int = e1 + 1 + d2.len() as int;
    let e3: int = e2 + 1 + d3.len() as int;
    assert(r[0] == '\t' && r[2] == 'l' && file_tag()[2] == 'f');
    lemma_scan_exact(r, 0, CharClass::LabelChar, 0);
    lemma_has_tag_chars(r, 0, file_tag());
    assert(r.subrange(0, 6) =~= loc_tag());
    assert(r.subrange(6, e1) =~= d1);
    assert(r[e1] == ' ' && r[e1 + 1] == d2[0] && is_ascii_digit(d2[0]));
    lemma_read_back(r, 6, file as nat);
    lemma_scan_exact(r, e1, CharClass::Blank, e1 + 1);
    assert(r.subrange(e1 + 1, e2) =~= d2);
    assert(r[e2] == ' ' && r[e2 + 1] == d3[0] && is_ascii_digit(d3[0]));
    lemma_read_back(r, e1 + 1, line as nat);
    lemma_scan_exact(r, e2, CharClass::Blank, e2 + 1);
    assert(r.subrange(e2 + 1, e3) =~= d3);
    match extra {
        Some(x) => {
            assert(r[e3] == ' ');
            lemma_read_back(r, e2 + 1, column as nat);
            assert forall|j: int| e3 + 1 <= j < r.len() implies #[trigger] r[j] != '\n' by {
                assert(r[j] == x[j - e3 - 1]);
            }
            lemma_scan_exact(r, e3 + 1, CharClass::NotNewline, r.len() as int);
            assert(r.subrange(e3 + 1, r.len() as int) =~= x);
        },
        None => {
            assert(r.len() == e3);
            lemma_read_back(r, e2 + 1, column as nat);
        },
    }
    assert(loc_of(r) == Some((st, r.len() as int)));
}

/// No char of `t` is a double quote.
pub open spec fn quote_free(t: Seq<char>) -> bool {
    forall|j: int| 0 <= j < t.len() ==> #[trigger] t[j] != '"'
}

pub open spec fn name_field(name: Option<Seq<char>>) -> Seq<char> {
    match name {
        Some(n) => seq![' '] + quote(n),
        None => Seq::empty(),
    }
}

/// A quoted string at `i`, with nothing quoted after it, reads as such.
proof fn lemma_quoted_at(r: Seq<char>, i: int, t: Seq<char>)
    requires
        0 <= i,
        i + t.len() + 2 <= r.len(),
        t.len() > 0,
        quote_free(t),
        r.subrange(i, i + t.len() + 2) == quote(t),
    ensures
        quoted_at(r, i) == Some((i + 1, i + 1 + t.len())),
{
    let n = t.len() as int;
    let w = r.subrange(i, i + n + 2);
    assert(w[0] == '"' && w[n + 1] == '"');
    assert(r[i] == w[0] && r[i + n + 1] == w[n + 1]);
    assert forall|j: int| i + 1 <= j < i + 1 + n implies in_class(
        CharClass::NotQuote,
        #[trigger] r[j],
    ) by {
        assert(r[j] == w[j - i]);
        assert(w[j - i] == t[j - i - 1]);
    }
    lemma_scan_exact(r, i + 1, CharClass::NotQuote, i + 1 + n);
}

/// A `.file` directive reads back from its text.
#[verifier::rlimit(100)]
#[verifier::spinoff_prover]
proof fn lemma_file_reads_back(
    index: u64,
    path: Seq<char>,
    name: Option<Seq<char>>,
    md5: Option<Seq<char>>,
)
    requires
        path.len() > 0,
        quote_free(path),
        (name matches Some(n) ==> n.len() > 0 && quote_free(n)),
        (md5 matches Some(m) ==> m.len() > 0 && forall|j: int|
            0 <= j < m.len() ==> in_class(CharClass::HexDigit, #[trigger] m[j])),
    ensures
        statement_of(rendered((LineStatement::File { index, path, name, md5 })))
            == (LineStatement::File { index, path, name, md5 }),
{
    let st = LineStatement::File { index, path, name, md5 };
    let r = rendered(st);
    let d = dec_digits(index as nat);
    lemma_dec_digits(index as nat);
    let pre0 = file_tag() + d + seq![' '];
    let pre1 = pre0 + quote(path);
    let pre2 = pre1 + name_field(name);
    assert(r == pre2 + opt_field(md5));
    let e1: int = 7 + d.len() as int;
    let b1: int = e1 + 1;
    let q: int = b1 + 1 + path.len() as int;
    let e2: int = pre2.len() as int;
    assert(r[0] == '\t');
    lemma_scan_exact(r, 0, CharClass::LabelChar, 0);
    assert(r.subrange(0, 7) =~= file_tag());
    assert(r.subrange(7, e1) =~= d);
    assert(r[e1] == ' ' && r[b1] == '"');
    lemma_read_back(r, 7, index as nat);
    lemma_scan_exact(r, e1, CharClass::Blank, b1);
    assert(r.subrange(b1, q + 1) =~= quote(path));
    lemma_quoted_at(r, b1, path);
    assert(r.subrange(b1 + 1, q) =~= path);
    match name {
        Some(n) => {
            assert(r[q + 1] == ' ' && r[q + 2] == '"');
            lemma_scan_exact(r, q + 1, CharClass::Blank, q + 2);
            assert(r.subrange(q + 2, e2) =~= quote(n));
            lemma_quoted_at(r, q + 2, n);
            assert(r.subrange(q + 3, e2 - 1) =~= n);
        },
        None => {
            assert(e2 == q + 1);
            if md5 is Some {
                let m = md5->0;
                assert(r[q + 1] == ' ' && r[q + 2] == m[0]);
                assert(in_class(CharClass::HexDigit, m[0]));
                lemma_scan_exact(r, q + 1, CharClass::Blank, q + 2);
            } else {
                lemma_scan_exact(r, q + 1, CharClass::Blank, q + 1);
            }
        },
    }
    match md5 {
        Some(m) => {
            assert(r[e2] == ' ' && r[e2 + 1] == m[0]);
            assert(in_class(CharClass::HexDigit, m[0]));
            lemma_scan_exact(r, e2, CharClass::Blank, e2 + 1);
            assert forall|j: int| e2 + 1 <= j < r.len() implies in_class(
                CharClass::HexDigit,
                #[trigger] r[j],
            ) by {
                assert(r[j] == m[j - e2 - 1]);
            }
            lemma_scan_exact(r, e2 + 1, CharClass::HexDigit, r.len() as int);
            assert(r.subrange(e2 + 1, r.len() as int) =~= m);
        },
        None => {
            assert(r.len() == e2);
            lemma_scan_exact(r, e2, CharClass::Blank, e2);
            lemma_scan_exact(r, e2, CharClass::HexDigit, e2);
        },
    }
    assert(file_of(r) == Some((st, r.len() as int)));
}

/// A `.section` directive whose text has no white space at either end reads back from its
/// text.
proof fn lemma_section_reads_back(t: Seq<char>)
    requires
        forall|j: int| 0 <= j < t.len() ==> #[trigger] t[j] != '\n',
        t.len() == 0 || (!white_space(t[0]) && !white_space(t.last())),
    ensures
        statement_of(rendered(LineStatement::SectionStart(t))) == LineStatement::SectionStart(t),
{
    let r = rendered(LineStatement::SectionStart(t));
    let len = r.len() as int;
    assert(r == section_tag() + seq!['\t'] + t);
    assert(r[0] == '\t' && r[2] == 's' && r[9] == '\t');
    assert(file_tag()[2] == 'f' && loc_tag()[2] == 'l' && set_tag()[0] == '.' && ssvs_tag()[0] == '.');
    lemma_scan_exact(r, 0, CharClass::LabelChar, 0);
    lemma_has_tag_chars(r, 0, file_tag());
    lemma_has_tag_chars(r, 0, loc_tag());
    lemma_has_tag_chars(r, 0, set_tag());
    lemma_has_tag_chars(r, 0, ssvs_tag());
    assert(r.subrange(0, 9) =~= section_tag());
    assert forall|j: int| 9 <= j < len implies #[trigger] r[j] != '\n' by {
        if j > 9 {
            assert(r[j] == t[j - 10]);
        }
    }
    lemma_scan_exact(r, 9, CharClass::NotNewline, len);
    let pre = r.subrange(0, len);
    assert(pre =~= r);
    if len > 10 {
        assert(r[10] == t[0] && r[len - 1] == t.last());
    }
    lemma_scan_exact(pre, 9, CharClass::Space, 10);
    assert(trailing_space_start(r, 10, len) == len);
    assert(trimmed(r, 9, len) =~= t);
}

proof fn lemma_section_line(line: Seq<char>)
    requires
        forall|j: int| 0 <= j < line.len() ==> #[trigger] line[j] != '\n',
        statement_of(line) is SectionStart,
    ensures
        statement_of(rendered(statement_of(line))) == statement_of(line),
        fields_newline_free(statement_of(line)),
{
    lemma_subrange_newline_free(line);
    let len = line.len() as int;
    lemma_scan_to_end(line, 9);
    let pre = line.subrange(0, len);
    lemma_scan(pre, 9, CharClass::Space);
    let a = scan(pre, 9, CharClass::Space);
    lemma_trailing_space_start(line, a, len);
    let b = trailing_space_start(line, a, len);
    let t = line.subrange(a, b);
    assert(statement_of(line) == LineStatement::SectionStart(t));
    if b > a {
        assert(t[0] == line[a] && line[a] == pre[a]);
        assert(t.last() == line[b - 1]);
    }
    assert forall|j: int| 0 <= j < t.len() implies #[trigger] t[j] != '\n' by {
        assert(t[j] == line[a + j]);
    }
    lemma_section_reads_back(t);
}

proof fn lemma_label_line(line: Seq<char>)
    requires
        forall|j: int| 0 <= j < line.len() ==> #[trigger] line[j] != '\n',
        label_of(line) is Some,
    ensures
        statement_of(rendered(statement_of(line))) == statement_of(line),
        fields_newline_free(statement_of(line)),
{
    lemma_subrange_newline_free(line);
    let st = statement_of(line);
    let len = line.len() as int;
    let e = scan(line, 0, CharClass::LabelChar);
    lemma_scan(line, 0, CharClass::LabelChar);
    if e > 0 && e < len && line[e] == ':' {
        assert forall|j: int| 0 <= j < e implies #[trigger] line.subrange(0, e)[j] != '"' by {
            assert(line.subrange(0, e)[j] == line[j]);
            assert(in_class(CharClass::LabelChar, line[j]));
        }
        lemma_label_reads_back(line.subrange(0, e));
    } else {
        lemma_scan(line, 1, CharClass::NotQuote);
        let q = scan(line, 1, CharClass::NotQuote);
        assert forall|j: int| 0 <= j < q - 1 implies #[trigger] line.subrange(1, q)[j] != '"' by {
            assert(line.subrange(1, q)[j] == line[j + 1]);
            assert(in_class(CharClass::NotQuote, line[j + 1]));
        }
        lemma_label_reads_back(line.subrange(1, q));
    }
}

proof fn lemma_loc_line(line: Seq<char>)
    requires
        forall|j: int| 0 <= j < line.len() ==> #[trigger] line[j] != '\n',
        label_of(line) is None,
        file_of(line) is None,
        loc_of(line) is Some,
    ensures
        statement_of(rendered(statement_of(line))) == statement_of(line),
        fields_newline_free(statement_of(line)),
{
    lemma_subrange_newline_free(line);
    let st = statement_of(line);
    let len = line.len() as int;
    let (file, e1) = read_u64(line, 6)->0;
    let b1 = scan(line, e1, CharClass::Blank);
    let (ln, e2) = read_u64(line, b1)->0;
    let b2 = scan(line, e2, CharClass::Blank);
    let (column, e3) = read_u64(line, b2)->0;
    let t = scan(line, e3 + 1, CharClass::NotNewline);
    if e3 < len && line[e3] == ' ' && t > e3 + 1 {
        let x = line.subrange(e3 + 1, t);
        lemma_scan(line, e3 + 1, CharClass::NotNewline);
        assert forall|j: int| 0 <= j < x.len() implies #[trigger] x[j] != '\n' by {
            assert(x[j] == line[e3 + 1 + j]);
        }
        lemma_loc_reads_back(file, ln, column, Some(x));
    } else {
        lemma_loc_reads_back(file, ln, column, None);
    }
}

#[verifier::rlimit(100)]
#[verifier::spinoff_prover]
proof fn lemma_file_line(line: Seq<char>)
    requires
        forall|j: int| 0 <= j < line.len() ==> #[trigger] line[j] != '\n',
        label_of(line) is None,
        file_of(line) is Some,
    ensures
        statement_of(rendered(statement_of(line))) == statement_of(line),
        fields_newline_free(statement_of(line)),
{
    lemma_subrange_newline_free(line);
    let (index, e1) = read_u64(line, 7)->0;
    let b1 = scan(line, e1, CharClass::Blank);
    let (path_lo, path_hi) = quoted_at(line, b1)->0;
    lemma_scan(line, b1 + 1, CharClass::NotQuote);
    let path = line.subrange(path_lo, path_hi);
    assert forall|j: int| 0 <= j < path.len() implies #[trigger] path[j] != '"' by {
        assert(path[j] == line[path_lo + j]);
        assert(in_class(CharClass::NotQuote, line[path_lo + j]));
    }
    lemma_scan(line, path_hi + 1, CharClass::Blank);
    let b2 = scan(line, path_hi + 1, CharClass::Blank);
    let second = if b2 > path_hi + 1 {
        quoted_at(line, b2)
    } else {
        None
    };
    let (name, e2) = match second {
        Some((n0, n1)) => (Some(line.subrange(n0, n1)), n1 + 1),
        None => (None, path_hi + 1),
    };
    if let Some((n0, n1)) = second {
        lemma_scan(line, b2 + 1, CharClass::NotQuote);
        let n = line.subrange(n0, n1);
        assert forall|j: int| 0 <= j < n.len() implies #[trigger] n[j] != '"' by {
            assert(n[j] == line[n0 + j]);
            assert(in_class(CharClass::NotQuote, line[n0 + j]));
        }
    }
    lemma_scan(line, e2, CharClass::Blank);
    let b3 = scan(line, e2, CharClass::Blank);
    lemma_scan(line, b3, CharClass::HexDigit);
    let h = scan(line, b3, CharClass::HexDigit);
    let md5 = if b3 > e2 && h > b3 {
        Some(line.subrange(b3, h))
    } else {
        None
    };
    if let Some(m) = md5 {
        assert forall|j: int| 0 <= j < m.len() implies in_class(CharClass::HexDigit, #[trigger] m[j]) by {
            assert(m[j] == line[b3 + j]);
        }
    }
    assert(newline_free(path));
    if let Some((n0, n1)) = second {
        assert(newline_free(line.subrange(n0, n1)));
    }
    if let Some(m) = md5 {
        assert(newline_free(line.subrange(b3, h)));
    }
    assert(statement_of(line) == (LineStatement::File { index, path, name, md5 }));
    lemma_file_reads_back(index, path, name, md5);
}

proof fn lemma_directive_line(line: Seq<char>)
    requires
        forall|j: int| 0 <= j < line.len() ==> #[trigger] line[j] != '\n',
        label_of(line) is None,
        directive_of(line) is Some,
    ensures
        statement_of(rendered(statement_of(line))) == statement_of(line),
        fields_newline_free(statement_of(line)),
{
    lemma_subrange_newline_free(line);
    let st = statement_of(line);
    let len = line.len() as int;
    if file_of(line) is Some {
        lemma_file_line(line);
    } else if loc_of(line) is Some {
        lemma_loc_line(line);
    } else if st is SubsectionsViaSym {
        lemma_ssvs_reads_back();
    } else if st is SectionStart {
        lemma_section_line(line);
    } else if st is Generic {
        lemma_scan_to_end(line, 2);
        lemma_has_tag_chars(line, 0, dot_tag());
        assert(rendered(st) =~= line);
    } else {
        assert(st is Assign);
        lemma_scan_to_end(line, 4);
        lemma_has_tag_chars(line, 0, set_tag());
        assert(rendered(st) =~= line);
    }
}

proof fn lemma_instruction_line(line: Seq<char>)
    requires
        forall|j: int| 0 <= j < line.len() ==> #[trigger] line[j] != '\n',
        label_of(line) is None,
        directive_of(line) is None,
        instruction_of(line) is Some,
    ensures
        statement_of(rendered(statement_of(line))) == statement_of(line),
        fields_newline_free(statement_of(line)),
{
    lemma_subrange_newline_free(line);
    let st = statement_of(line);
    let len = line.len() as int;
    let e = scan(line, 1, CharClass::OpChar);
    let b = scan(line, e, CharClass::Blank);
    lemma_scan(line, 1, CharClass::OpChar);
    if e > 1 {
        lemma_scan(line, e, CharClass::Blank);
        lemma_scan_to_end(line, b);
        let op = line.subrange(1, e);
        if line[1] == '.' {
            assert(line.subrange(0, 2) =~= dot_tag());
            if len > 2 {
                lemma_scan(line, 2, CharClass::NotNewline);
                assert(scan(line, 2, CharClass::NotNewline) == scan(line, 3, CharClass::NotNewline));
                lemma_scan(line, 3, CharClass::NotNewline);
            }
            assert(rendered(st) =~= line);
        } else {
            let args = if b > e {
                Some(line.subrange(b, len))
            } else {
                None
            };
            assert forall|j: int| 0 <= j < op.len() implies in_class(
                CharClass::OpChar,
                #[trigger] op[j],
            ) by {
                assert(op[j] == line[j + 1]);
            }
            if b > e {
                assert forall|j: int| 0 <= j < len - b implies #[trigger] line.subrange(
                    b,
                    len,
                )[j] != '\n' by {
                    assert(line.subrange(b, len)[j] == line[j + b]);
                }
            }
            assert(st == LineStatement::Instruction { op, args });
            lemma_instruction_reads_back(op, args);
        }
    } else {
        lemma_scan_to_end(line, 1);
        assert(rendered(st) =~= line);
    }
}

/// Reading back the text of a statement read from a line gives that statement again.
pub proof fn lemma_text_reads_back(line: Seq<char>)
    requires
        !line.contains('\n'),
    ensures
        statement_of(rendered(statement_of(line))) == statement_of(line),
        newline_free(rendered(statement_of(line))),
{
    assert forall|j: int| 0 <= j < line.len() implies #[trigger] line[j] != '\n' by {
        if line[j] == '\n' {
            assert(line.contains('\n'));
        }
    }
    if label_of(line) is Some {
        lemma_label_line(line);
    } else if directive_of(line) is Some {
        lemma_directive_line(line);
    } else if instruction_of(line) is Some {
        lemma_instruction_line(line);
    } else {
        assert(rendered(statement_of(line)) =~= line);
    }
    lemma_rendered_newline_free(statement_of(line));
}

/// The text of a statement, as a complete line.
pub open spec fn text_line(st: LineStatement) -> Seq<char> {
    rendered(st) + seq!['\n']
}

/// For input that holds a line feed, the statement that `parse_statement` reads from its
/// first line, written as a complete line, reads back as the same statement, with nothing
/// after it.
pub proof fn lemma_parsed_text_reads_back(input: Seq<char>)
    requires
        input.contains('\n'),
    ensures
        text_line(statement_of(first_line(input))).contains('\n'),
        statement_of(first_line(text_line(statement_of(first_line(input)))))
            == statement_of(first_line(input)),
        after_first_line(text_line(statement_of(first_line(input)))).len() == 0,
{
    let line = first_line(input);
    lemma_scan(input, 0, CharClass::NotNewline);
    let e = scan(input, 0, CharClass::NotNewline);
    assert forall|j: int| 0 <= j < line.len() implies #[trigger] line[j] != '\n' by {
        assert(line[j] == input[j]);
        assert(in_class(CharClass::NotNewline, input[j]));
    }
    assert(!line.contains('\n'));
    lemma_text_reads_back(line);
    let r = rendered(statement_of(line));
    let t = text_line(statement_of(line));
    assert(t[r.len() as int] == '\n');
    assert forall|j: int| 0 <= j < r.len() implies in_class(CharClass::NotNewline, #[trigger] t[j]) by {
        assert(t[j] == r[j]);
    }
    lemma_scan_exact(t, 0, CharClass::NotNewline, r.len() as int);
    assert(first_line(t) =~= r);
}

} // verus!
