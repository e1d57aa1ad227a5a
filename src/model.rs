//! What a line of a listing says, and the grammar that decides it, as spec functions.

use vstd::prelude::*;
use crate::text::{CharClass, has_tag, read_u64, scan, trimmed};
use crate::statements::LabelKind;

verus! {

/// The meaning of one line, with each borrowed span given by its chars.
pub enum LineStatement {
    Label { id: Seq<char>, kind: LabelKind },
    /// A `.file` directive; `name` is present where the path comes as directory and name.
    File { index: u64, path: Seq<char>, name: Option<Seq<char>>, md5: Option<Seq<char>> },
    Loc { file: u64, line: u64, column: u64, extra: Option<Seq<char>> },
    /// A `.set` directive, with the text that follows `.set`.
    Assign(Seq<char>),
    SubsectionsViaSym,
    SectionStart(Seq<char>),
    Generic(Seq<char>),
    Instruction { op: Seq<char>, args: Option<Seq<char>> },
    Nothing,
    Dunno(Seq<char>),
}

pub open spec fn file_tag() -> Seq<char> {
    seq!['\t', '.', 'f', 'i', 'l', 'e', '\t']
}

pub open spec fn loc_tag() -> Seq<char> {
    seq!['\t', '.', 'l', 'o', 'c', '\t']
}

pub open spec fn set_tag() -> Seq<char> {
    seq!['.', 's', 'e', 't']
}

pub open spec fn ssvs_tag() -> Seq<char> {
    seq![
        '.', 's', 'u', 'b', 's', 'e', 'c', 't', 'i', 'o', 'n', 's', '_', 'v', 'i', 'a', '_', 's',
        'y', 'm', 'b', 'o', 'l', 's',
    ]
}

pub open spec fn section_tag() -> Seq<char> {
    seq!['\t', '.', 's', 'e', 'c', 't', 'i', 'o', 'n']
}

pub open spec fn dot_tag() -> Seq<char> {
    seq!['\t', '.']
}

/// The kind of a label, read from its name: after one optional leading `.`, a name that
/// starts with `Ltmp` is temporary, any other that starts with `L` is local, one in a
/// mangling scheme (`_Z`, `__Z`, `_R`, `?`) is global, and the rest are unknown.
pub open spec fn label_kind_of(id: Seq<char>) -> LabelKind {
    let b = if id.len() > 0 && id[0] == '.' {
        id.subrange(1, id.len() as int)
    } else {
        id
    };
    if b.len() >= 4 && b[0] == 'L' && b[1] == 't' && b[2] == 'm' && b[3] == 'p' {
        LabelKind::Temp
    } else if b.len() >= 1 && b[0] == 'L' {
        LabelKind::Local
    } else if (b.len() >= 2 && b[0] == '_' && b[1] == 'Z') || (b.len() >= 3 && b[0] == '_' && b[1]
        == '_' && b[2] == 'Z') || (b.len() >= 2 && b[0] == '_' && b[1] == 'R') || (b.len() >= 1
        && b[0] == '?') {
        LabelKind::Global
    } else {
        LabelKind::Unknown
    }
}

/// A label at the start of `s`: the bounds of its name and the end of the match.
/// A bare name of label chars followed by `:`, or else a quoted name followed by `:`.
pub open spec fn label_span(s: Seq<char>) -> Option<(int, int, int)> {
    let e = scan(s, 0, CharClass::LabelChar);
    let q = scan(s, 1, CharClass::NotQuote);
    if e > 0 && e < s.len() && s[e] == ':' {
        Some((0, e, e + 1))
    } else if s.len() > 0 && s[0] == '"' && q > 1 && q + 1 < s.len() && s[q] == '"' && s[q + 1]
        == ':' {
        Some((1, q, q + 2))
    } else {
        None
    }
}

pub open spec fn label_of(s: Seq<char>) -> Option<(LineStatement, int)> {
    match label_span(s) {
        Some((a, b, e)) => Some(
            (
                LineStatement::Label { id: s.subrange(a, b), kind: label_kind_of(s.subrange(a, b)) },
                e,
            ),
        ),
        None => None,
    }
}

/// An instruction at the start of `s`: a tab, then an opcode with the rest of the line as
/// its operands where blanks follow it, or else a comment of `#` signs to the end of the line.
pub open spec fn instruction_of(s: Seq<char>) -> Option<(LineStatement, int)> {
    let e = scan(s, 1, CharClass::OpChar);
    let b = scan(s, e, CharClass::Blank);
    let t = scan(s, b, CharClass::NotNewline);
    let h = scan(s, 1, CharClass::NotNewline);
    if !(s.len() > 0 && s[0] == '\t') {
        None
    } else if e > 1 && b > e {
        Some((LineStatement::Instruction { op: s.subrange(1, e), args: Some(s.subrange(b, t)) }, t))
    } else if e > 1 {
        Some((LineStatement::Instruction { op: s.subrange(1, e), args: None }, e))
    } else if s.len() > 1 && s[1] == '#' {
        Some((LineStatement::Instruction { op: s.subrange(1, h), args: None }, h))
    } else {
        None
    }
}

/// A `.loc` directive at the start of `s`: three numbers apart by blanks, then, after one
/// space, the rest of the line kept as it stands.
pub open spec fn loc_of(s: Seq<char>) -> Option<(LineStatement, int)> {
    if !has_tag(s, 0, loc_tag()) {
        None
    } else if let Some((file, e1)) = read_u64(s, 6) {
        let b1 = scan(s, e1, CharClass::Blank);
        if b1 == e1 {
            None
        } else if let Some((line, e2)) = read_u64(s, b1) {
            let b2 = scan(s, e2, CharClass::Blank);
            if b2 == e2 {
                None
            } else if let Some((column, e3)) = read_u64(s, b2) {
                let t = scan(s, e3 + 1, CharClass::NotNewline);
                if e3 < s.len() && s[e3] == ' ' && t > e3 + 1 {
                    Some(
                        (
                            LineStatement::Loc {
                                file,
                                line,
                                column,
                                extra: Some(s.subrange(e3 + 1, t)),
                            },
                            t,
                        ),
                    )
                } else {
                    Some((LineStatement::Loc { file, line, column, extra: None }, e3))
                }
            } else {
                None
            }
        } else {
            None
        }
    } else {
        None
    }
}

/// A quoted, non-empty string at `i`: the bounds of what stands between the quotes.
pub open spec fn quoted_at(s: Seq<char>, i: int) -> Option<(int, int)> {
    let q = scan(s, i + 1, CharClass::NotQuote);
    if 0 <= i < s.len() && s[i] == '"' && q > i + 1 && q < s.len() {
        Some((i + 1, q))
    } else {
        None
    }
}

/// A `.file` directive at the start of `s`: an index, a quoted path, an optional quoted
/// file name and an optional hex digest, apart by blanks.
pub open spec fn file_of(s: Seq<char>) -> Option<(LineStatement, int)> {
    if !has_tag(s, 0, file_tag()) {
        None
    } else if let Some((index, e1)) = read_u64(s, 7) {
        let b1 = scan(s, e1, CharClass::Blank);
        if b1 == e1 {
            None
        } else if let Some((path_lo, path_hi)) = quoted_at(s, b1) {
            let b2 = scan(s, path_hi + 1, CharClass::Blank);
            let second = if b2 > path_hi + 1 {
                quoted_at(s, b2)
            } else {
                None
            };
            let (name, e2) = match second {
                Some((n0, n1)) => (Some(s.subrange(n0, n1)), n1 + 1),
                None => (None, path_hi + 1),
            };
            let b3 = scan(s, e2, CharClass::Blank);
            let h = scan(s, b3, CharClass::HexDigit);
            if b3 > e2 && h > b3 {
                Some(
                    (
                        LineStatement::File {
                            index,
                            path: s.subrange(path_lo, path_hi),
                            name,
                            md5: Some(s.subrange(b3, h)),
                        },
                        h,
                    ),
                )
            } else {
                Some(
                    (
                        LineStatement::File {
                            index,
                            path: s.subrange(path_lo, path_hi),
                            name,
                            md5: None,
                        },
                        e2,
                    ),
                )
            }
        } else {
            None
        }
    } else {
        None
    }
}

/// The directives of a line, tried in their order of priority.
pub open spec fn directive_of(s: Seq<char>) -> Option<LineStatement> {
    let t_set = scan(s, 4, CharClass::NotNewline);
    let t_section = scan(s, 9, CharClass::NotNewline);
    let t_generic = scan(s, 2, CharClass::NotNewline);
    if let Some((f, _)) = file_of(s) {
        Some(f)
    } else if let Some((l, _)) = loc_of(s) {
        Some(l)
    } else if has_tag(s, 0, set_tag()) && t_set > 4 {
        Some(LineStatement::Assign(s.subrange(4, t_set)))
    } else if has_tag(s, 0, ssvs_tag()) {
        Some(LineStatement::SubsectionsViaSym)
    } else if has_tag(s, 0, section_tag()) && t_section > 9 {
        Some(LineStatement::SectionStart(trimmed(s, 9, t_section)))
    } else if has_tag(s, 0, dot_tag()) && t_generic > 2 {
        Some(LineStatement::Generic(s.subrange(2, t_generic)))
    } else {
        None
    }
}

/// The meaning of a line (without its line feed): the first of label, directive,
/// instruction, blank line that matches, else the line itself, unrecognised.
pub open spec fn statement_of(line: Seq<char>) -> LineStatement {
    if let Some((l, _)) = label_of(line) {
        l
    } else if let Some(d) = directive_of(line) {
        d
    } else if let Some((i, _)) = instruction_of(line) {
        i
    } else if line.len() == 0 {
        LineStatement::Nothing
    } else {
        LineStatement::Dunno(line)
    }
}

pub open spec fn func_end_tag() -> Seq<char> {
    seq!['L', 'f', 'u', 'n', 'c', '_', 'e', 'n', 'd']
}

pub open spec fn globl_tag() -> Seq<char> {
    seq!['g', 'l', 'o', 'b', 'l', '\t']
}

/// A label name that marks the end of a function: after one optional leading `.`, it
/// starts with `Lfunc_end`.
pub open spec fn ends_function(id: Seq<char>) -> bool {
    let b = if id.len() > 0 && id[0] == '.' {
        id.subrange(1, id.len() as int)
    } else {
        id
    };
    has_tag(b, 0, func_end_tag())
}

/// The path that a directory and a name in it make: the name alone where it is absolute,
/// else the two apart by one `/`.
pub open spec fn joined_path(dir: Seq<char>, name: Seq<char>) -> Seq<char> {
    if name.len() > 0 && name[0] == '/' {
        name
    } else if dir.len() == 0 || dir.last() == '/' {
        dir + name
    } else {
        dir + seq!['/'] + name
    }
}

/// The first line of `s`, without its line feed.
pub open spec fn first_line(s: Seq<char>) -> Seq<char> {
    s.subrange(0, scan(s, 0, CharClass::NotNewline))
}

/// What follows the first line feed of `s`; nothing where there is none.
pub open spec fn after_first_line(s: Seq<char>) -> Seq<char> {
    let t = scan(s, 0, CharClass::NotNewline);
    if t < s.len() {
        s.subrange(t + 1, s.len() as int)
    } else {
        Seq::empty()
    }
}

} // verus!
