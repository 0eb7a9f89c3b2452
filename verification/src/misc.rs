//! Miscellaneous rules: braces on their own line, multi-line comments, the
//! goto ban, enum value layout, and static variables.

use vstd::prelude::*;
use vstd::string::*;

use crate::Rule;
use crate::brace::{own_line_brace_diags, scan_own_line_brace};
use crate::comment::{mlc_diags, scan_mlc};
use crate::text::{
    after_last, begins, chars_equal, chars_to_string, contains_char, contains_sub, diag_prefix,
    has_char, has_sub, line_seq, loc, push_diag, split_lines, tail_after_last, to_upper, trim,
    trim_start, trimmed_begins_with, upper_of,
};

verus! {

// ---------------------------------------------------------------------------
// OwnLineBrace and MultiLinesComment
// ---------------------------------------------------------------------------

/// Flags braces that share their line with other code.
pub struct OwnLineBrace {}

impl OwnLineBrace {
    pub fn new() -> (r: OwnLineBrace) {
        OwnLineBrace {  }
    }

    pub fn verify(&self, filename: &str, content: &str) -> (r: Vec<String>)
        ensures
            r.deep_view() == own_line_brace_diags(filename@, content@),
    {
        scan_own_line_brace(filename, content)
    }
}

impl Rule for OwnLineBrace {
    fn verify(&self, filename: &str, content: &str) -> Vec<String> {
        OwnLineBrace::verify(self, filename, content)
    }
}

/// Flags malformed multi-line comments.
pub struct MultiLinesComment {}

impl MultiLinesComment {
    pub fn new() -> (r: MultiLinesComment) {
        MultiLinesComment {  }
    }

    pub fn verify(&self, filename: &str, content: &str) -> (r: Vec<String>)
        ensures
            r.deep_view() == mlc_diags(filename@, content@),
    {
        scan_mlc(filename, content)
    }
}

impl Rule for MultiLinesComment {
    fn verify(&self, filename: &str, content: &str) -> Vec<String> {
        MultiLinesComment::verify(self, filename, content)
    }
}

// ---------------------------------------------------------------------------
// Goto
// ---------------------------------------------------------------------------

/// Flags every line that mentions `goto`.
pub struct Goto {}

pub open spec fn goto_line(file: Seq<char>, line: Seq<char>, ln: nat) -> Seq<Seq<char>> {
    if has_sub(line, "goto"@) {
        seq![loc(file, ln) + "Goto statement unauthorized."@]
    } else {
        Seq::empty()
    }
}

pub open spec fn goto_from(file: Seq<char>, lines: Seq<Seq<char>>, ln: nat) -> Seq<Seq<char>>
    decreases lines.len(),
{
    if lines.len() == 0 {
        Seq::empty()
    } else {
        goto_line(file, lines[0], ln) + goto_from(file, lines.drop_first(), ln + 1)
    }
}

/// Every diagnostic of the goto rule, in line order.
pub open spec fn goto_diags(file: Seq<char>, content: Seq<char>) -> Seq<Seq<char>> {
    goto_from(file, line_seq(content), 1)
}

impl Goto {
    pub fn new() -> (r: Goto) {
        Goto {  }
    }

    pub fn verify(&self, filename: &str, content: &str) -> (r: Vec<String>)
        ensures
            r.deep_view() == goto_diags(filename@, content@),
    {
        let lines = split_lines(content);
        let ghost l = lines.deep_view();
        let mut r: Vec<String> = Vec::new();
        let mut i: usize = 0;
        proof {
            assert(l.skip(0) =~= l);
            assert(r.deep_view() =~= Seq::<Seq<char>>::empty());
            assert(r.deep_view() + goto_from(filename@, l, 1) =~= goto_from(filename@, l, 1));
        }
        while i < lines.len()
            invariant
                0 <= i <= lines@.len(),
                l == lines.deep_view(),
                lines@.len() == l.len(),
                goto_diags(filename@, content@) == r.deep_view() + goto_from(
                    filename@,
                    l.skip(i as int),
                    (i + 1) as nat,
                ),
            decreases lines@.len() - i,
        {
            let line = &lines[i];
            proof {
                assert(l.skip(i as int)[0] =~= line@);
                assert(l.skip(i as int).drop_first() =~= l.skip(i + 1));
            }
            let ghost pre = r.deep_view();
            if contains_sub(line, "goto") {
                let mut m = diag_prefix(filename, (i + 1) as u128);
                m.append("Goto statement unauthorized.");
                push_diag(&mut r, m);
            }
            proof {
                let mid = goto_line(filename@, line@, (i + 1) as nat);
                assert(r.deep_view() =~= pre + mid);
                let rest = goto_from(filename@, l.skip(i + 1), (i + 2) as nat);
                assert((pre + mid) + rest =~= pre + (mid + rest));
            }
            i = i + 1;
        }
        proof {
            assert(l.skip(i as int).len() == 0);
            assert(r.deep_view() + goto_from(filename@, l.skip(i as int), (i + 1) as nat)
                =~= r.deep_view());
        }
        r
    }
}

impl Rule for Goto {
    fn verify(&self, filename: &str, content: &str) -> Vec<String> {
        Goto::verify(self, filename, content)
    }
}

// ---------------------------------------------------------------------------
// Enum
// ---------------------------------------------------------------------------

/// Flags enum values that are not fully capitalized or share a line.
pub struct Enum {}

/// One step of the enum scan. Inside an enum, a non-closing line must equal
/// its own uppercase form, and nothing may follow a comma but whitespace; a
/// line that mentions `enum` outside a comment enters the enum.
pub open spec fn enum_step(file: Seq<char>, line: Seq<char>, ln: nat, ine: bool) -> (Seq<
    Seq<char>,
>, bool) {
    let entering = has_sub(line, "enum"@) && !begins(trim_start(line), "//"@) && !begins(
        trim_start(line),
        "**"@,
    );
    if ine {
        let ine1 = !has_char(line, '}');
        let d1: Seq<Seq<char>> = if ine1 && upper_of(line) != line {
            seq![
                loc(file, ln) + "Enum values must be entirely capitalized. Expected '"@ + upper_of(
                    line,
                ) + "' got '"@ + line + "'"@,
            ]
        } else {
            Seq::empty()
        };
        let d2: Seq<Seq<char>> = if has_char(line, ',') && trim(line).len() > 1 && trim(
            after_last(line, ','),
        ).len() > 0 {
            seq![loc(file, ln) + "Enum values must be on their own line."@]
        } else {
            Seq::empty()
        };
        (d1 + d2, entering || ine1)
    } else {
        (Seq::empty(), entering)
    }
}

pub open spec fn enum_from(file: Seq<char>, lines: Seq<Seq<char>>, ln: nat, ine: bool) -> Seq<
    Seq<char>,
>
    decreases lines.len(),
{
    if lines.len() == 0 {
        Seq::empty()
    } else {
        enum_step(file, lines[0], ln, ine).0 + enum_from(
            file,
            lines.drop_first(),
            ln + 1,
            enum_step(file, lines[0], ln, ine).1,
        )
    }
}

/// Every diagnostic of the enum rule, in line order.
pub open spec fn enum_diags(file: Seq<char>, content: Seq<char>) -> Seq<Seq<char>> {
    enum_from(file, line_seq(content), 1, false)
}

impl Enum {
    pub fn new() -> (r: Enum) {
        Enum {  }
    }

    pub fn verify(&self, filename: &str, content: &str) -> (r: Vec<String>)
        ensures
            r.deep_view() == enum_diags(filename@, content@),
    {
        let lines = split_lines(content);
        let ghost l = lines.deep_view();
        let mut r: Vec<String> = Vec::new();
        let mut ine: bool = false;
        let mut i: usize = 0;
        proof {
            assert(l.skip(0) =~= l);
            assert(r.deep_view() =~= Seq::<Seq<char>>::empty());
            assert(r.deep_view() + enum_from(filename@, l, 1, false) =~= enum_from(
                filename@,
                l,
                1,
                false,
            ));
        }
        while i < lines.len()
            invariant
                0 <= i <= lines@.len(),
                l == lines.deep_view(),
                lines@.len() == l.len(),
                enum_diags(filename@, content@) == r.deep_view() + enum_from(
                    filename@,
                    l.skip(i as int),
                    (i + 1) as nat,
                    ine,
                ),
            decreases lines@.len() - i,
        {
            let line = &lines[i];
            proof {
                assert(l.skip(i as int)[0] =~= line@);
                assert(l.skip(i as int).drop_first() =~= l.skip(i + 1));
            }
            let ghost pre = r.deep_view();
            let ghost ine0 = ine;
            let entering = contains_sub(line, "enum") && !trimmed_begins_with(line, "//")
                && !trimmed_begins_with(line, "**");
            if ine {
                let ine1 = !contains_char(line, '}');
                if ine1 {
                    let up = to_upper(line);
                    if !chars_equal(&up, line) {
                        let mut m = diag_prefix(filename, (i + 1) as u128);
                        m.append("Enum values must be entirely capitalized. Expected '");
                        let ups = chars_to_string(&up);
                        m.append(ups.as_str());
                        m.append("' got '");
                        let lns = chars_to_string(line);
                        m.append(lns.as_str());
                        m.append("'");
                        push_diag(&mut r, m);
                    }
                }
                if contains_char(line, ',') && crate::indentation::trim_len(line) > 1 && ({
                    let tail = tail_after_last(line, ',');
                    crate::indentation::trim_len(&tail) > 0
                }) {
                    let mut m = diag_prefix(filename, (i + 1) as u128);
                    m.append("Enum values must be on their own line.");
                    push_diag(&mut r, m);
                }
                ine = entering || ine1;
            } else {
                ine = entering;
            }
            proof {
                let (mid, st2) = enum_step(filename@, line@, (i + 1) as nat, ine0);
                assert(ine == st2);
                assert(r.deep_view() =~= pre + mid);
                let rest = enum_from(filename@, l.skip(i + 1), (i + 2) as nat, st2);
                assert((pre + mid) + rest =~= pre + (mid + rest));
            }
            i = i + 1;
        }
        proof {
            assert(l.skip(i as int).len() == 0);
            assert(r.deep_view() + enum_from(filename@, l.skip(i as int), (i + 1) as nat, ine)
                =~= r.deep_view());
        }
        r
    }
}

impl Rule for Enum {
    fn verify(&self, filename: &str, content: &str) -> Vec<String> {
        Enum::verify(self, filename, content)
    }
}

// ---------------------------------------------------------------------------
// StaticVariable
// ---------------------------------------------------------------------------

/// Flags static variables that are not const.
pub struct StaticVariable {}

pub open spec fn static_line(file: Seq<char>, line: Seq<char>, ln: nat) -> Seq<Seq<char>> {
    if begins(trim_start(line), "static "@) && (!has_sub(line, "("@) || has_sub(line, "="@))
        && !has_sub(line, "static const"@) {
        seq![loc(file, ln) + "Static variable must be const."@]
    } else {
        Seq::empty()
    }
}

pub open spec fn static_from(file: Seq<char>, lines: Seq<Seq<char>>, ln: nat) -> Seq<Seq<char>>
    decreases lines.len(),
{
    if lines.len() == 0 {
        Seq::empty()
    } else {
        static_line(file, lines[0], ln) + static_from(file, lines.drop_first(), ln + 1)
    }
}

/// Every diagnostic of the static-variable rule, in line order.
pub open spec fn static_diags(file: Seq<char>, content: Seq<char>) -> Seq<Seq<char>> {
    static_from(file, line_seq(content), 1)
}

impl StaticVariable {
    pub fn new() -> (r: StaticVariable) {
        StaticVariable {  }
    }

    pub fn verify(&self, filename: &str, content: &str) -> (r: Vec<String>)
        ensures
            r.deep_view() == static_diags(filename@, content@),
    {
        let lines = split_lines(content);
        let ghost l = lines.deep_view();
        let mut r: Vec<String> = Vec::new();
        let mut i: usize = 0;
        proof {
            assert(l.skip(0) =~= l);
            assert(r.deep_view() =~= Seq::<Seq<char>>::empty());
            assert(r.deep_view() + static_from(filename@, l, 1) =~= static_from(filename@, l, 1));
        }
        while i < lines.len()
            invariant
                0 <= i <= lines@.len(),
                l == lines.deep_view(),
                lines@.len() == l.len(),
                static_diags(filename@, content@) == r.deep_view() + static_from(
                    filename@,
                    l.skip(i as int),
                    (i + 1) as nat,
                ),
            decreases lines@.len() - i,
        {
            let line = &lines[i];
            proof {
                assert(l.skip(i as int)[0] =~= line@);
                assert(l.skip(i as int).drop_first() =~= l.skip(i + 1));
            }
            let ghost pre = r.deep_view();
            if trimmed_begins_with(line, "static ") && (!contains_sub(line, "(") || contains_sub(
                line,
                "=",
            )) && !contains_sub(line, "static const") {
                let mut m = diag_prefix(filename, (i + 1) as u128);
                m.append("Static variable must be const.");
                push_diag(&mut r, m);
            }
            proof {
                let mid = static_line(filename@, line@, (i + 1) as nat);
                assert(r.deep_view() =~= pre + mid);
                let rest = static_from(filename@, l.skip(i + 1), (i + 2) as nat);
                assert((pre + mid) + rest =~= pre + (mid + rest));
            }
            i = i + 1;
        }
        proof {
            assert(l.skip(i as int).len() == 0);
            assert(r.deep_view() + static_from(filename@, l.skip(i as int), (i + 1) as nat)
                =~= r.deep_view());
        }
        r
    }
}

impl Rule for StaticVariable {
    fn verify(&self, filename: &str, content: &str) -> Vec<String> {
        StaticVariable::verify(self, filename, content)
    }
}

} // verus!
