//! The text of a statement, and the law that reading that text back gives the statement.

use vstd::prelude::*;
use crate::model::{LineStatement, dot_tag, file_tag, loc_tag, section_tag, set_tag, ssvs_tag};
use crate::statements::{Directive, FilePath, GenericDirective, Statement};
use crate::text::{
    CharClass, chars_of, dec_value, digit_value, has_tag, in_class, is_ascii_digit, is_label_char,
    lemma_has_tag_chars, lemma_scan, lemma_scan_exact, read_u64, scan_class,
};

verus! {

/// The ASCII digit for `d`, which is below ten.
pub open spec fn digit_char(d: nat) -> char {
    if d == 0 {
        '0'
    } else if d == 1 {
        '1'
    } else if d == 2 {
        '2'
    } else if d == 3 {
        '3'
    } else if d == 4 {
        '4'
    } else if d == 5 {
        '5'
    } else if d == 6 {
        '6'
    } else if d == 7 {
        '7'
    } else if d == 8 {
        '8'
    } else {
        '9'
    }
}

/// `n` written in decimal, without leading zeros.
pub open spec fn dec_digits(n: nat) -> Seq<char>
    decreases n,
{
    if n < 10 {
        seq![digit_char(n)]
    } else {
        dec_digits(n / 10) + seq![digit_char(n % 10)]
    }
}

proof fn lemma_digit_char(d: nat)
    requires
        d < 10,
    ensures
        is_ascii_digit(digit_char(d)),
        digit_value(digit_char(d)) == d,
{
}

/// The decimal value of `k` digits depends only on those digits.
proof fn lemma_dec_value_window(s: Seq<char>, t: Seq<char>, i: int, i2: int, k: int)
    requires
        0 <= k,
        0 <= i,
        0 <= i2,
        i + k <= s.len(),
        i2 + k <= t.len(),
        s.subrange(i, i + k) == t.subrange(i2, i2 + k),
    ensures
        dec_value(s, i, i + k) == dec_value(t, i2, i2 + k),
    decreases k,
{
    if k > 0 {
        assert(s.subrange(i, i + k - 1) =~= s.subrange(i, i + k).subrange(0, k - 1));
        assert(t.subrange(i2, i2 + k - 1) =~= t.subrange(i2, i2 + k).subrange(0, k - 1));
        lemma_dec_value_window(s, t, i, i2, k - 1);
        assert(s.subrange(i, i + k)[k - 1] == t.subrange(i2, i2 + k)[k - 1]);
        assert(s.subrange(i, i + k)[k - 1] == s[i + (k - 1)]);
        assert(t.subrange(i2, i2 + k)[k - 1] == t[i2 + (k - 1)]);
        assert(dec_value(s, i, i + k) == dec_value(s, i, i + k - 1) * 10 + digit_value(
            s[i + k - 1],
        ));
        assert(dec_value(t, i2, i2 + k) == dec_value(t, i2, i2 + k - 1) * 10 + digit_value(
            t[i2 + k - 1],
        ));
    }
}

pub proof fn lemma_dec_digits(n: nat)
    ensures
        dec_digits(n).len() > 0,
        forall|j: int| 0 <= j < dec_digits(n).len() ==> is_ascii_digit(#[trigger] dec_digits(n)[j]),
        dec_value(dec_digits(n), 0, dec_digits(n).len() as int) == n,
    decreases n,
{
    let s = dec_digits(n);
    if n < 10 {
        lemma_digit_char(n);
        assert(dec_value(s, 0, 0) == 0);
    } else {
        lemma_dec_digits(n / 10);
        lemma_digit_char(n % 10);
        let a = dec_digits(n / 10);
        assert(s == a + seq![digit_char(n % 10)]);
        assert(s.subrange(0, a.len() as int) =~= a.subrange(0, a.len() as int));
        lemma_dec_value_window(s, a, 0, 0, a.len() as int);
        assert forall|j: int| 0 <= j < s.len() implies is_ascii_digit(#[trigger] s[j]) by {
            if j < a.len() {
                assert(s[j] == a[j]);
            }
        }
    }
}

/// The decimal text of `n`, where no digit follows it, reads back as `n`.
pub proof fn lemma_read_back(s: Seq<char>, i: int, n: nat)
    requires
        n <= u64::MAX,
        has_tag(s, i, dec_digits(n)),
        i + dec_digits(n).len() == s.len() || !is_ascii_digit(s[i + dec_digits(n).len()]),
    ensures
        read_u64(s, i) == Some((n as u64, i + dec_digits(n).len())),
{
    let d = dec_digits(n);
    lemma_dec_digits(n);
    lemma_has_tag_chars(s, i, d);
    assert forall|j: int| i <= j < i + d.len() implies in_class(CharClass::Digit, #[trigger] s[j]) by {
        assert(s[i + (j - i)] == d[j - i]);
    }
    lemma_scan_exact(s, i, CharClass::Digit, i + d.len());
    assert(d.subrange(0, d.len() as int) =~= d);
    lemma_dec_value_window(s, d, i, 0, d.len() as int);
}

/// The ASCII digit for `d`, as text.
fn digit_text(d: u64) -> (r: &'static str)
    requires
        d < 10,
    ensures
        r@ == seq![digit_char(d as nat)],
{
    proof {
        reveal_strlit("0");
        reveal_strlit("1");
        reveal_strlit("2");
        reveal_strlit("3");
        reveal_strlit("4");
        reveal_strlit("5");
        reveal_strlit("6");
        reveal_strlit("7");
        reveal_strlit("8");
        reveal_strlit("9");
    }
    let r = if d == 0 {
        "0"
    } else if d == 1 {
        "1"
    } else if d == 2 {
        "2"
    } else if d == 3 {
        "3"
    } else if d == 4 {
        "4"
    } else if d == 5 {
        "5"
    } else if d == 6 {
        "6"
    } else if d == 7 {
        "7"
    } else if d == 8 {
        "8"
    } else {
        "9"
    };
    assert(r@ =~= seq![digit_char(d as nat)]);
    r
}

/// `n` written in decimal, without leading zeros.
pub fn decimal(n: u64) -> (r: String)
    ensures
        r@ == dec_digits(n as nat),
    decreases n,
{
    if n < 10 {
        String::from_str(digit_text(n))
    } else {
        let mut r = decimal(n / 10);
        r.append(digit_text(n % 10));
        r
    }
}

/// A name that can stand as a label without quotes.
pub open spec fn bare_name(id: Seq<char>) -> bool {
    id.len() > 0 && forall|j: int| 0 <= j < id.len() ==> is_label_char(#[trigger] id[j])
}

pub open spec fn quote(t: Seq<char>) -> Seq<char> {
    seq!['"'] + t + seq!['"']
}

/// An optional field, after one space.
pub open spec fn opt_field(o: Option<Seq<char>>) -> Seq<char> {
    match o {
        Some(x) => seq![' '] + x,
        None => Seq::empty(),
    }
}

/// The text of a statement, as one line without its line feed.
pub open spec fn rendered(st: LineStatement) -> Seq<char> {
    match st {
        LineStatement::Label { id, .. } => if bare_name(id) {
            id + seq![':']
        } else {
            quote(id) + seq![':']
        },
        LineStatement::File { index, path, name, md5 } => file_tag() + dec_digits(index as nat)
            + seq![' '] + quote(path) + match name {
            Some(n) => seq![' '] + quote(n),
            None => Seq::empty(),
        } + opt_field(md5),
        LineStatement::Loc { file, line, column, extra } => loc_tag() + dec_digits(file as nat)
            + seq![' '] + dec_digits(line as nat) + seq![' '] + dec_digits(column as nat)
            + opt_field(extra),
        LineStatement::Assign(t) => set_tag() + t,
        LineStatement::SubsectionsViaSym => ssvs_tag(),
        LineStatement::SectionStart(t) => section_tag() + seq!['\t'] + t,
        LineStatement::Generic(t) => dot_tag() + t,
        LineStatement::Instruction { op, args } => seq!['\t'] + op + opt_field(args),
        LineStatement::Nothing => Seq::empty(),
        LineStatement::Dunno(t) => t,
    }
}

fn push_opt(out: &mut String, o: Option<&str>)
    ensures
        final(out)@ == old(out)@ + opt_field(crate::statements::opt_view(o)),
{
    if let Some(x) = o {
        proof {
            reveal_strlit(" ");
        }
        out.append(" ");
        out.append(x);
        assert(final(out)@ =~= old(out)@ + (seq![' '] + x@));
    } else {
        assert(out@ =~= old(out)@ + Seq::<char>::empty());
    }
}

fn push_quoted(out: &mut String, t: &str)
    ensures
        final(out)@ == old(out)@ + quote(t@),
{
    proof {
        reveal_strlit("\"");
    }
    out.append("\"");
    out.append(t);
    out.append("\"");
    assert(final(out)@ =~= old(out)@ + quote(t@));
}

impl<'a> Statement<'a> {
    /// The text of this statement, as a line without its line feed and without colour.
    pub fn to_text(&self) -> (r: String)
        ensures
            r@ == rendered(self@),
    {
        proof {
            reveal_strlit(" ");
            reveal_strlit(":");
            reveal_strlit("\t");
        }
        match self {
            Statement::Label(l) => {
                let cs = chars_of(l.id);
                let e = scan_class(&cs, 0, CharClass::LabelChar);
                proof {
                    lemma_scan(cs@, 0, CharClass::LabelChar);
                    if bare_name(l.id@) {
                        lemma_scan_exact(cs@, 0, CharClass::LabelChar, cs@.len() as int);
                    }
                }
                let mut out = String::new();
                if e == cs.len() && e > 0 {
                    out.append(l.id);
                } else {
                    push_quoted(&mut out, l.id);
                }
                out.append(":");
                assert(out@ =~= rendered(self@));
                out
            },
            Statement::Instruction(i) => {
                let mut out = String::from_str("\t");
                out.append(i.op);
                push_opt(&mut out, i.args);
                assert(out@ =~= rendered(self@));
                out
            },
            Statement::Nothing => {
                let out = String::new();
                assert(out@ =~= rendered(self@));
                out
            },
            Statement::Dunno(t) => String::from_str(t),
            Statement::Directive(d) => match d {
                Directive::File(f) => {
                    proof {
                        reveal_strlit("\t.file\t");
                        assert("\t.file\t"@ =~= file_tag());
                    }
                    let mut out = String::from_str("\t.file\t");
                    let idx = decimal(f.index);
                    out.append(idx.as_str());
                    out.append(" ");
                    match f.path {
                        FilePath::FullPath(p) => {
                            push_quoted(&mut out, p);
                        },
                        FilePath::PathAndFileName { path, name } => {
                            push_quoted(&mut out, path);
                            out.append(" ");
                            push_quoted(&mut out, name);
                        },
                    }
                    push_opt(&mut out, f.md5);
                    assert(out@ =~= rendered(self@));
                    out
                },
                Directive::Loc(l) => {
                    proof {
                        reveal_strlit("\t.loc\t");
                        assert("\t.loc\t"@ =~= loc_tag());
                    }
                    let mut out = String::from_str("\t.loc\t");
                    let a = decimal(l.file);
                    let b = decimal(l.line);
                    let c = decimal(l.column);
                    out.append(a.as_str());
                    out.append(" ");
                    out.append(b.as_str());
                    out.append(" ");
                    out.append(c.as_str());
                    push_opt(&mut out, l.extra);
                    assert(out@ =~= rendered(self@));
                    out
                },
                Directive::Generic(GenericDirective(t)) => {
                    proof {
                        reveal_strlit("\t.");
                        assert("\t."@ =~= dot_tag());
                    }
                    let mut out = String::from_str("\t.");
                    out.append(t);
                    out
                },
                Directive::SetSymbol(t) => {
                    proof {
                        reveal_strlit(".set");
                        assert(".set"@ =~= set_tag());
                    }
                    let mut out = String::from_str(".set");
                    out.append(t);
                    out
                },
                Directive::SubsectionsViaSym => {
                    proof {
                        reveal_strlit(".subsections_via_symbols");
                        assert(".subsections_via_symbols"@ =~= ssvs_tag());
                    }
                    String::from_str(".subsections_via_symbols")
                },
                Directive::SectionStart(t) => {
                    proof {
                        reveal_strlit("\t.section\t");
                        assert("\t.section\t"@ =~= section_tag() + seq!['\t']);
                    }
                    let mut out = String::from_str("\t.section\t");
                    out.append(t);
                    out
                },
            },
        }
    }
}

} // verus!
