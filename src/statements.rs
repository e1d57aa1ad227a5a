//! Statements of an assembly listing and the grammar that reads them, one line at a time.

use vstd::prelude::*;
use crate::model::{
    LineStatement, after_first_line, directive_of, dot_tag, ends_function, func_end_tag,
    globl_tag, joined_path, file_of, file_tag, first_line,
    instruction_of, label_kind_of, label_of, loc_of, loc_tag, quoted_at, section_tag, set_tag,
    ssvs_tag, statement_of,
};
use crate::text::{
    has_tag, lemma_has_tag_chars,
    CharClass, chars_of, lemma_scan, lemma_scan_exact, parse_u64, scan_class, split_first_line,
    tag_at, trim_bounds,
};

verus! {

/// How a label is named, which tells what kind of symbol it defines.
#[derive(Clone, Copy, Debug, PartialEq, Eq, Structural)]
pub enum LabelKind {
    Global,
    Local,
    Temp,
    Unknown,
}

/// One line of a listing.
#[derive(Clone, Debug, PartialEq)]
pub enum Statement<'a> {
    Label(Label<'a>),
    Directive(Directive<'a>),
    Instruction(Instruction<'a>),
    /// A blank line.
    Nothing,
    /// A line that matches nothing else, kept as it stands.
    Dunno(&'a str),
}

/// An opcode with its operands as unparsed text.
#[derive(Clone, Debug, PartialEq)]
pub struct Instruction<'a> {
    pub op: &'a str,
    pub args: Option<&'a str>,
}

/// A symbol definition: a name followed by `:`.
#[derive(Clone, Copy, Debug, PartialEq, Eq)]
pub struct Label<'a> {
    pub id: &'a str,
    pub kind: LabelKind,
}

/// A line-table annotation: a source file index, line and column, then any flags as text.
/// Two are equal where their file and line are, whatever their column and flags.
#[derive(Clone, Copy, Debug, Eq)]
pub struct Loc<'a> {
    pub file: u64,
    pub line: u64,
    pub column: u64,
    pub extra: Option<&'a str>,
}

impl<'a> PartialEq for Loc<'a> {
    fn eq(&self, other: &Self) -> (r: bool)
        ensures
            r == (self.file == other.file && self.line == other.line),
    {
        self.file == other.file && self.line == other.line
    }
}

impl<'a> vstd::std_specs::cmp::PartialEqSpecImpl for Loc<'a> {
    open spec fn obeys_eq_spec() -> bool {
        true
    }

    open spec fn eq_spec(&self, other: &Loc<'a>) -> bool {
        self.file == other.file && self.line == other.line
    }
}

impl<'a> Default for Loc<'a> {
    fn default() -> (r: Self)
        ensures
            r.file == 0 && r.line == 0 && r.column == 0 && r.extra is None,
    {
        Loc { file: 0, line: 0, column: 0, extra: None }
    }
}

/// The source file of a `.file` directive: one full path, or a directory and a name in it.
#[derive(Clone, Copy, Debug, PartialEq, Eq)]
pub enum FilePath<'a> {
    FullPath(&'a str),
    PathAndFileName { path: &'a str, name: &'a str },
}

/// A `.file` directive: the index that `.loc` directives use for a source file.
#[derive(Clone, Copy, Debug, PartialEq, Eq)]
pub struct File<'a> {
    pub index: u64,
    pub path: FilePath<'a>,
    pub md5: Option<&'a str>,
}

/// An assembler directive.
#[derive(Clone, Debug, PartialEq)]
pub enum Directive<'a> {
    File(File<'a>),
    Loc(Loc<'a>),
    /// Any other directive, with the text after its leading `.`.
    Generic(GenericDirective<'a>),
    /// A `.set` directive, with the text after `.set`.
    SetSymbol(&'a str),
    SubsectionsViaSym,
    /// A `.section` directive, with its trimmed attributes.
    SectionStart(&'a str),
}

/// The text of a directive after its leading `.`.
#[derive(Clone, Debug, PartialEq)]
pub struct GenericDirective<'a>(pub &'a str);

pub open spec fn opt_view(o: Option<&str>) -> Option<Seq<char>> {
    match o {
        Some(x) => Some(x@),
        None => None,
    }
}

impl<'a> View for Label<'a> {
    type V = LineStatement;

    open spec fn view(&self) -> LineStatement {
        LineStatement::Label { id: self.id@, kind: self.kind }
    }
}

impl<'a> View for Instruction<'a> {
    type V = LineStatement;

    open spec fn view(&self) -> LineStatement {
        LineStatement::Instruction { op: self.op@, args: opt_view(self.args) }
    }
}

impl<'a> View for Loc<'a> {
    type V = LineStatement;

    open spec fn view(&self) -> LineStatement {
        LineStatement::Loc {
            file: self.file,
            line: self.line,
            column: self.column,
            extra: opt_view(self.extra),
        }
    }
}

impl<'a> View for File<'a> {
    type V = LineStatement;

    open spec fn view(&self) -> LineStatement {
        match self.path {
            FilePath::FullPath(p) => LineStatement::File {
                index: self.index,
                path: p@,
                name: None,
                md5: opt_view(self.md5),
            },
            FilePath::PathAndFileName { path, name } => LineStatement::File {
                index: self.index,
                path: path@,
                name: Some(name@),
                md5: opt_view(self.md5),
            },
        }
    }
}

impl<'a> View for Directive<'a> {
    type V = LineStatement;

    open spec fn view(&self) -> LineStatement {
        match self {
            Directive::File(f) => f@,
            Directive::Loc(l) => l@,
            Directive::Generic(g) => LineStatement::Generic(g.0@),
            Directive::SetSymbol(t) => LineStatement::Assign(t@),
            Directive::SubsectionsViaSym => LineStatement::SubsectionsViaSym,
            Directive::SectionStart(t) => LineStatement::SectionStart(t@),
        }
    }
}

impl<'a> View for Statement<'a> {
    type V = LineStatement;

    open spec fn view(&self) -> LineStatement {
        match self {
            Statement::Label(l) => l@,
            Statement::Directive(d) => d@,
            Statement::Instruction(i) => i@,
            Statement::Nothing => LineStatement::Nothing,
            Statement::Dunno(t) => LineStatement::Dunno(t@),
        }
    }
}

/// The kind of the label named by `cs[a..b]`.
fn kind_of_span(cs: &Vec<char>, a: usize, b: usize) -> (k: LabelKind)
    requires
        a <= b <= cs@.len(),
    ensures
        k == label_kind_of(cs@.subrange(a as int, b as int)),
{
    let ghost id = cs@.subrange(a as int, b as int);
    let st: usize = if b > a && cs[a] == '.' {
        a + 1
    } else {
        a
    };
    let ghost rest = if id.len() > 0 && id[0] == '.' {
        id.subrange(1, id.len() as int)
    } else {
        id
    };
    assert(rest =~= cs@.subrange(st as int, b as int));
    let n = b - st;
    assert(forall|j: int| 0 <= j < n ==> rest[j] == cs@[st + j]);
    if n >= 4 && cs[st] == 'L' && cs[st + 1] == 't' && cs[st + 2] == 'm' && cs[st + 3] == 'p' {
        LabelKind::Temp
    } else if n >= 1 && cs[st] == 'L' {
        LabelKind::Local
    } else if (n >= 2 && cs[st] == '_' && cs[st + 1] == 'Z') || (n >= 3 && cs[st] == '_' && cs[st
        + 1] == '_' && cs[st + 2] == 'Z') || (n >= 2 && cs[st] == '_' && cs[st + 1] == 'R') || (n
        >= 1 && cs[st] == '?') {
        LabelKind::Global
    } else {
        LabelKind::Unknown
    }
}

/// The kind of label that `id` names.
pub fn label_kind(id: &str) -> (k: LabelKind)
    ensures
        k == label_kind_of(id@),
{
    let cs = chars_of(id);
    assert(cs@.subrange(0, cs@.len() as int) =~= id@);
    kind_of_span(&cs, 0, cs.len())
}

fn label_at<'a>(s: &'a str, cs: &Vec<char>) -> (r: Option<(usize, Label<'a>)>)
    requires
        cs@ == s@,
    ensures
        match r {
            Some((e, l)) => label_of(s@) == Some((l@, e as int)) && e <= s@.len(),
            None => label_of(s@) is None,
        },
{
    let e = scan_class(cs, 0, CharClass::LabelChar);
    proof {
        lemma_scan(cs@, 0, CharClass::LabelChar);
    }
    if e > 0 && e < cs.len() && cs[e] == ':' {
        let id = s.substring_char(0, e);
        let kind = kind_of_span(cs, 0, e);
        return Some((e + 1, Label { id, kind }));
    }
    if cs.len() > 0 && cs[0] == '"' {
        let q = scan_class(cs, 1, CharClass::NotQuote);
        proof {
            lemma_scan(cs@, 1, CharClass::NotQuote);
        }
        if q > 1 && q < cs.len() - 1 && cs[q] == '"' && cs[q + 1] == ':' {
            let id = s.substring_char(1, q);
            let kind = kind_of_span(cs, 1, q);
            return Some((q + 2, Label { id, kind }));
        }
    }
    None
}

impl<'a> Label<'a> {
    /// Reads a label definition at the start of `input`: a bare name of label chars, or a
    /// quoted name, followed by `:`. Returns the text after the `:` and the label.
    pub fn parse(input: &'a str) -> (r: Option<(&'a str, Label<'a>)>)
        ensures
            match r {
                Some((rest, l)) => label_of(input@) matches Some((v, e)) && l@ == v && rest@
                    == input@.subrange(e, input@.len() as int),
                None => label_of(input@) is None,
            },
    {
        let cs = chars_of(input);
        match label_at(input, &cs) {
            Some((e, l)) => Some((input.substring_char(e, cs.len()), l)),
            None => None,
        }
    }
}

fn instruction_at<'a>(s: &'a str, cs: &Vec<char>) -> (r: Option<(usize, Instruction<'a>)>)
    requires
        cs@ == s@,
    ensures
        match r {
            Some((e, i)) => instruction_of(s@) == Some((i@, e as int)) && e <= s@.len(),
            None => instruction_of(s@) is None,
        },
{
    if cs.len() == 0 || cs[0] != '\t' {
        return None;
    }
    let e = scan_class(cs, 1, CharClass::OpChar);
    proof {
        lemma_scan(cs@, 1, CharClass::OpChar);
    }
    let b = scan_class(cs, e, CharClass::Blank);
    proof {
        lemma_scan(cs@, e as int, CharClass::Blank);
    }
    if e > 1 {
        let op = s.substring_char(1, e);
        if b > e {
            let t = scan_class(cs, b, CharClass::NotNewline);
            proof {
                lemma_scan(cs@, b as int, CharClass::NotNewline);
            }
            Some((t, Instruction { op, args: Some(s.substring_char(b, t)) }))
        } else {
            Some((e, Instruction { op, args: None }))
        }
    } else if cs.len() > 1 && cs[1] == '#' {
        let h = scan_class(cs, 1, CharClass::NotNewline);
        proof {
            lemma_scan(cs@, 1, CharClass::NotNewline);
        }
        Some((h, Instruction { op: s.substring_char(1, h), args: None }))
    } else {
        None
    }
}

impl<'a> Instruction<'a> {
    /// Reads an instruction line at the start of `input`: a tab, then an opcode with its
    /// operands, or a comment of `#` signs. Returns the text after it and the instruction.
    pub fn parse(input: &'a str) -> (r: Option<(&'a str, Instruction<'a>)>)
        ensures
            match r {
                Some((rest, i)) => instruction_of(input@) matches Some((v, e)) && i@ == v && rest@
                    == input@.subrange(e, input@.len() as int),
                None => instruction_of(input@) is None,
            },
    {
        let cs = chars_of(input);
        match instruction_at(input, &cs) {
            Some((e, i)) => Some((input.substring_char(e, cs.len()), i)),
            None => None,
        }
    }
}

fn loc_at<'a>(s: &'a str, cs: &Vec<char>) -> (r: Option<(usize, Loc<'a>)>)
    requires
        cs@ == s@,
    ensures
        match r {
            Some((e, l)) => loc_of(s@) == Some((l@, e as int)) && e <= s@.len(),
            None => loc_of(s@) is None,
        },
{
    proof {
        reveal_strlit("\t.loc\t");
        assert("\t.loc\t"@ =~= loc_tag());
    }
    if !tag_at(cs, 0, "\t.loc\t") {
        return None;
    }
    let (file, e1) = match parse_u64(cs, 6) {
        Some(p) => p,
        None => return None,
    };
    let b1 = scan_class(cs, e1, CharClass::Blank);
    proof {
        lemma_scan(cs@, e1 as int, CharClass::Blank);
    }
    if b1 == e1 {
        return None;
    }
    let (line, e2) = match parse_u64(cs, b1) {
        Some(p) => p,
        None => return None,
    };
    let b2 = scan_class(cs, e2, CharClass::Blank);
    proof {
        lemma_scan(cs@, e2 as int, CharClass::Blank);
    }
    if b2 == e2 {
        return None;
    }
    let (column, e3) = match parse_u64(cs, b2) {
        Some(p) => p,
        None => return None,
    };
    if e3 < cs.len() && cs[e3] == ' ' {
        let t = scan_class(cs, e3 + 1, CharClass::NotNewline);
        proof {
            lemma_scan(cs@, e3 + 1, CharClass::NotNewline);
        }
        if t > e3 + 1 {
            return Some((t, Loc { file, line, column, extra: Some(s.substring_char(e3 + 1, t)) }));
        }
    }
    Some((e3, Loc { file, line, column, extra: None }))
}

impl<'a> Loc<'a> {
    /// Reads a `.loc` directive at the start of `input`: a tab, `.loc`, a tab, then file,
    /// line and column numbers apart by blanks, and after one space any flags, as text.
    /// Returns the text after it and the annotation.
    pub fn parse(input: &'a str) -> (r: Option<(&'a str, Loc<'a>)>)
        ensures
            match r {
                Some((rest, l)) => loc_of(input@) matches Some((v, e)) && l@ == v && rest@
                    == input@.subrange(e, input@.len() as int),
                None => loc_of(input@) is None,
            },
    {
        let cs = chars_of(input);
        match loc_at(input, &cs) {
            Some((e, l)) => Some((input.substring_char(e, cs.len()), l)),
            None => None,
        }
    }
}

/// The bounds of the non-empty quoted string at `i`, between its quotes.
fn quoted_span(cs: &Vec<char>, i: usize) -> (r: Option<(usize, usize)>)
    requires
        i <= cs@.len(),
    ensures
        match r {
            Some((a, b)) => quoted_at(cs@, i as int) == Some((a as int, b as int)) && b
                < cs@.len(),
            None => quoted_at(cs@, i as int) is None,
        },
{
    if i < cs.len() && cs[i] == '"' {
        let q = scan_class(cs, i + 1, CharClass::NotQuote);
        proof {
            lemma_scan(cs@, i + 1, CharClass::NotQuote);
        }
        if q > i + 1 && q < cs.len() {
            return Some((i + 1, q));
        }
    }
    None
}

fn file_at<'a>(s: &'a str, cs: &Vec<char>) -> (r: Option<(usize, File<'a>)>)
    requires
        cs@ == s@,
    ensures
        match r {
            Some((e, f)) => file_of(s@) == Some((f@, e as int)) && e <= s@.len(),
            None => file_of(s@) is None,
        },
{
    proof {
        reveal_strlit("\t.file\t");
        assert("\t.file\t"@ =~= file_tag());
    }
    if !tag_at(cs, 0, "\t.file\t") {
        return None;
    }
    let (index, e1) = match parse_u64(cs, 7) {
        Some(p) => p,
        None => return None,
    };
    let b1 = scan_class(cs, e1, CharClass::Blank);
    proof {
        lemma_scan(cs@, e1 as int, CharClass::Blank);
    }
    if b1 == e1 {
        return None;
    }
    let (path_lo, path_hi) = match quoted_span(cs, b1) {
        Some(p) => p,
        None => return None,
    };
    let len = cs.len();
    assert(path_hi < len);
    let b2 = scan_class(cs, path_hi + 1, CharClass::Blank);
    proof {
        lemma_scan(cs@, path_hi + 1, CharClass::Blank);
    }
    let second = if b2 > path_hi + 1 {
        quoted_span(cs, b2)
    } else {
        None
    };
    assert(second matches Some((n0, n1)) ==> n1 < len);
    let dir = s.substring_char(path_lo, path_hi);
    let (path, e2) = match second {
        Some((n0, n1)) => (
            FilePath::PathAndFileName { path: dir, name: s.substring_char(n0, n1) },
            n1 + 1,
        ),
        None => (FilePath::FullPath(dir), path_hi + 1),
    };
    let b3 = scan_class(cs, e2, CharClass::Blank);
    proof {
        lemma_scan(cs@, e2 as int, CharClass::Blank);
    }
    let h = scan_class(cs, b3, CharClass::HexDigit);
    proof {
        lemma_scan(cs@, b3 as int, CharClass::HexDigit);
    }
    if b3 > e2 && h > b3 {
        Some((h, File { index, path, md5: Some(s.substring_char(b3, h)) }))
    } else {
        Some((e2, File { index, path, md5: None }))
    }
}

impl<'a> File<'a> {
    /// Reads a `.file` directive at the start of `input`: a tab, `.file`, a tab, an index,
    /// a quoted path, an optional quoted file name and an optional hex digest, apart by
    /// blanks. Returns the text after it and the directive.
    pub fn parse(input: &'a str) -> (r: Option<(&'a str, File<'a>)>)
        ensures
            match r {
                Some((rest, f)) => file_of(input@) matches Some((v, e)) && f@ == v && rest@
                    == input@.subrange(e, input@.len() as int),
                None => file_of(input@) is None,
            },
    {
        let cs = chars_of(input);
        match file_at(input, &cs) {
            Some((e, f)) => Some((input.substring_char(e, cs.len()), f)),
            None => None,
        }
    }
}

fn directive_at<'a>(s: &'a str, cs: &Vec<char>) -> (r: Option<Directive<'a>>)
    requires
        cs@ == s@,
    ensures
        match r {
            Some(d) => directive_of(s@) == Some(d@),
            None => directive_of(s@) is None,
        },
{
    if let Some((_, f)) = file_at(s, cs) {
        return Some(Directive::File(f));
    }
    if let Some((_, l)) = loc_at(s, cs) {
        return Some(Directive::Loc(l));
    }
    proof {
        reveal_strlit(".set");
        reveal_strlit(".subsections_via_symbols");
        reveal_strlit("\t.section");
        reveal_strlit("\t.");
        assert(".set"@ =~= set_tag());
        assert(".subsections_via_symbols"@ =~= ssvs_tag());
        assert("\t.section"@ =~= section_tag());
        assert("\t."@ =~= dot_tag());
    }
    if tag_at(cs, 0, ".set") {
        let t = scan_class(cs, 4, CharClass::NotNewline);
        if t > 4 {
            proof {
                lemma_scan(cs@, 4, CharClass::NotNewline);
            }
            return Some(Directive::SetSymbol(s.substring_char(4, t)));
        }
    }
    if tag_at(cs, 0, ".subsections_via_symbols") {
        return Some(Directive::SubsectionsViaSym);
    }
    if tag_at(cs, 0, "\t.section") {
        let t = scan_class(cs, 9, CharClass::NotNewline);
        if t > 9 {
            proof {
                lemma_scan(cs@, 9, CharClass::NotNewline);
            }
            let (a, b) = trim_bounds(cs, 9, t);
            return Some(Directive::SectionStart(s.substring_char(a, b)));
        }
    }
    if tag_at(cs, 0, "\t.") {
        let t = scan_class(cs, 2, CharClass::NotNewline);
        if t > 2 {
            proof {
                lemma_scan(cs@, 2, CharClass::NotNewline);
            }
            return Some(Directive::Generic(GenericDirective(s.substring_char(2, t))));
        }
    }
    None
}

/// The statement that the line `s` (without its line feed) holds.
fn statement_at<'a>(s: &'a str, cs: &Vec<char>) -> (st: Statement<'a>)
    requires
        cs@ == s@,
    ensures
        st@ == statement_of(s@),
{
    if let Some((_, l)) = label_at(s, cs) {
        return Statement::Label(l);
    }
    if let Some(d) = directive_at(s, cs) {
        return Statement::Directive(d);
    }
    if let Some((_, i)) = instruction_at(s, cs) {
        return Statement::Instruction(i);
    }
    if cs.len() == 0 {
        Statement::Nothing
    } else {
        Statement::Dunno(s)
    }
}

/// Reads the first line of `input` as one statement, and returns the text after its line
/// feed with it. Labels come first, then the directives `.file`, `.loc`, `.set`,
/// `.subsections_via_symbols`, `.section` and any other, then instructions, then a blank
/// line; any other line is kept as it stands. What a match leaves of its line is dropped.
/// Text that ends without a line feed is no complete line: it is kept as it stands, as an
/// unrecognised last line. Only empty input gives `None`.
pub fn parse_statement<'a>(input: &'a str) -> (r: Option<(&'a str, Statement<'a>)>)
    ensures
        r is None <==> input@.len() == 0,
        input@.contains('\n') ==> (r matches Some((rest, st)) && st@ == statement_of(
            first_line(input@),
        ) && rest@ == after_first_line(input@)),
        (!input@.contains('\n') && input@.len() > 0) ==> (r matches Some((rest, st)) && st@
            == LineStatement::Dunno(input@) && rest@.len() == 0),
{
    match split_first_line(input) {
        Some((line, rest)) => {
            let cs = chars_of(line);
            proof {
                let n = line@.len() as int;
                assert(input@[n] == '\n');
                assert(input@.contains('\n'));
                assert forall|j: int| 0 <= j < n implies #[trigger] input@[j] != '\n' by {
                    assert(input@[j] == line@[j]);
                }
                lemma_scan_exact(input@, 0, CharClass::NotNewline, n);
                assert(first_line(input@) =~= line@);
                assert(after_first_line(input@) =~= rest@);
            }
            Some((rest, statement_at(line, &cs)))
        },
        None => {
            let n = input.unicode_len();
            if n == 0 {
                return None;
            }
            Some((input.substring_char(n, n), Statement::Dunno(input)))
        },
    }
}

impl<'a> FilePath<'a> {
    /// The whole path that this names.
    pub open spec fn full_path(&self) -> Seq<char> {
        match self {
            FilePath::FullPath(p) => p@,
            FilePath::PathAndFileName { path, name } => joined_path(path@, name@),
        }
    }

    /// The whole path: the full path as it stands, or the directory joined with the name.
    pub fn as_full_path(&self) -> (r: String)
        ensures
            r@ == self.full_path(),
    {
        match self {
            FilePath::FullPath(p) => String::from_str(p),
            FilePath::PathAndFileName { path, name } => {
                let n = chars_of(name);
                if n.len() > 0 && n[0] == '/' {
                    return String::from_str(name);
                }
                let d = chars_of(path);
                let mut out = String::from_str(path);
                if d.len() > 0 && d[d.len() - 1] != '/' {
                    proof {
                        reveal_strlit("/");
                    }
                    out.append("/");
                    assert(out@ =~= path@ + seq!['/']);
                }
                out.append(name);
                out
            },
        }
    }
}

/// Whether `cs[st..]` starts with the chars of `t`, as `has_tag` states it of that suffix.
proof fn lemma_has_tag_suffix(cs: Seq<char>, st: int, t: Seq<char>)
    requires
        0 <= st <= cs.len(),
    ensures
        has_tag(cs, st, t) == has_tag(cs.subrange(st, cs.len() as int), 0, t),
{
    let b = cs.subrange(st, cs.len() as int);
    lemma_has_tag_chars(cs, st, t);
    lemma_has_tag_chars(b, 0, t);
    assert(forall|j: int| 0 <= j < b.len() ==> b[j] == cs[st + j]);
}

impl<'a> Statement<'a> {
    /// Whether this is a label that marks the end of a function.
    pub fn is_end_of_fn(&self) -> (r: bool)
        ensures
            r == (self@ matches LineStatement::Label { id, .. } && ends_function(id)),
    {
        match self {
            Statement::Label(l) => {
                let cs = chars_of(l.id);
                let st: usize = if cs.len() > 0 && cs[0] == '.' {
                    1
                } else {
                    0
                };
                proof {
                    reveal_strlit("Lfunc_end");
                    assert("Lfunc_end"@ =~= func_end_tag());
                    lemma_has_tag_suffix(cs@, st as int, func_end_tag());
                    assert(cs@.subrange(0, cs@.len() as int) =~= cs@);
                }
                tag_at(&cs, st, "Lfunc_end")
            },
            Statement::Directive(d) => {
                assert(!(d@ is Label));
                false
            },
            _ => false,
        }
    }

    /// Whether this is a `.section` directive.
    pub fn is_section_start(&self) -> (r: bool)
        ensures
            r == (self@ is SectionStart),
    {
        match self {
            Statement::Directive(Directive::SectionStart(_)) => true,
            Statement::Directive(Directive::File(f)) => {
                assert(f@ is File);
                false
            },
            Statement::Directive(Directive::Loc(l)) => {
                assert(l@ is Loc);
                false
            },
            _ => false,
        }
    }

    /// Whether this is a `.globl` directive: a generic directive whose text starts with
    /// `globl` and a tab.
    pub fn is_global(&self) -> (r: bool)
        ensures
            r == (self@ matches LineStatement::Generic(t) && has_tag(t, 0, globl_tag())),
    {
        match self {
            Statement::Directive(Directive::Generic(GenericDirective(dir))) => {
                let cs = chars_of(dir);
                proof {
                    reveal_strlit("globl\t");
                    assert("globl\t"@ =~= globl_tag());
                }
                tag_at(&cs, 0, "globl\t")
            },
            Statement::Directive(Directive::File(f)) => {
                assert(f@ is File);
                false
            },
            Statement::Directive(Directive::Loc(l)) => {
                assert(l@ is Loc);
                false
            },
            _ => false,
        }
    }
}

} // verus!
