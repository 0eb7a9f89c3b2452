//! Brace placement rules: braces on their own line, and the flat
//! brace-counting indentation check.

use vstd::prelude::*;
use vstd::string::*;

use crate::Rule;
use crate::indentation::{Finding, render_finding, wrong_indent_msg};
use crate::text::{
    diag_prefix, ends, ends_with, has_char, contains_char, is_space, leading, leading_spaces,
    line_seq, loc, mul_capped, mulcap, nonspace_count, count_nonspace, push_diag, split_lines,
    trim, trim_end, trim_end_ends_with,
};

verus! {

// ---------------------------------------------------------------------------
// OwnLineBrace
// ---------------------------------------------------------------------------

/// Flags braces that share their line with other code.
pub struct OwnLineBrace {}

/// A line that a brace may share: only the brace after trimming, or a
/// two-character macro-continuation line ending in a backslash.
pub open spec fn brace_alone(line: Seq<char>) -> bool {
    trim(line).len() == 1 || (nonspace_count(line) == 2 && ends(trim_end(line), "\\"@))
}

/// Diagnostics of the own-line-brace rule for one line.
pub open spec fn own_line_brace_line(file: Seq<char>, line: Seq<char>, ln: nat) -> Seq<Seq<char>> {
    if has_char(line, '{') && !brace_alone(line) {
        seq![loc(file, ln) + "Opening brace must be on their own line."@]
    } else if has_char(line, '}') && !brace_alone(line) {
        if !ends(line, ";"@) {
            seq![loc(file, ln) + "Closing brace must be on their own line."@]
        } else {
            Seq::empty()
        }
    } else {
        Seq::empty()
    }
}

pub open spec fn own_line_brace_from(file: Seq<char>, lines: Seq<Seq<char>>, ln: nat) -> Seq<
    Seq<char>,
>
    decreases lines.len(),
{
    if lines.len() == 0 {
        Seq::empty()
    } else {
        own_line_brace_line(file, lines[0], ln) + own_line_brace_from(
            file,
            lines.drop_first(),
            ln + 1,
        )
    }
}

/// Every diagnostic of the own-line-brace rule, in line order.
pub open spec fn own_line_brace_diags(file: Seq<char>, content: Seq<char>) -> Seq<Seq<char>> {
    own_line_brace_from(file, line_seq(content), 1)
}

fn emit_own_line_brace(r: &mut Vec<String>, file: &str, line: &Vec<char>, ln: usize)
    ensures
        final(r).deep_view() == old(r).deep_view() + own_line_brace_line(file@, line@, ln as nat),
{
    let ghost pre = r.deep_view();
    let tl = crate::indentation::trim_len(line);
    let alone = tl == 1 || (count_nonspace(line) == 2 && trim_end_ends_with(line, "\\"));
    if contains_char(line, '{') && !alone {
        let mut m = diag_prefix(file, ln as u128);
        m.append("Opening brace must be on their own line.");
        push_diag(r, m);
    } else if contains_char(line, '}') && !alone {
        if !ends_with(line, ";") {
            let mut m = diag_prefix(file, ln as u128);
            m.append("Closing brace must be on their own line.");
            push_diag(r, m);
        }
    }
    proof {
        assert(r.deep_view() =~= pre + own_line_brace_line(file@, line@, ln as nat));
    }
}

/// Runs the own-line-brace scan over a whole file.
pub(crate) fn scan_own_line_brace(filename: &str, content: &str) -> (r: Vec<String>)
    ensures
        r.deep_view() == own_line_brace_diags(filename@, content@),
{
    let lines = split_lines(content);
    let ghost l = lines.deep_view();
    let mut r: Vec<String> = Vec::new();
    let mut i: usize = 0;
    proof {
        assert(l.skip(0) =~= l);
        assert(r.deep_view() =~= Seq::<Seq<char>>::empty());
        assert(r.deep_view() + own_line_brace_from(filename@, l, 1) =~= own_line_brace_from(
            filename@,
            l,
            1,
        ));
    }
    while i < lines.len()
        invariant
            0 <= i <= lines@.len(),
            l == lines.deep_view(),
            lines@.len() == l.len(),
            own_line_brace_diags(filename@, content@) == r.deep_view() + own_line_brace_from(
                filename@,
                l.skip(i as int),
                (i + 1) as nat,
            ),
        decreases lines@.len() - i,
    {
        let line = &lines[i];
        proof {
            assert(l.skip(i as int)[0] =~= line@);
            assert(l.skip(i as int).drop_first() =~= l.skip(i + 1));
        }
        let ghost pre = r.deep_view();
        emit_own_line_brace(&mut r, filename, line, i + 1);
        proof {
            let mid = own_line_brace_line(filename@, line@, (i + 1) as nat);
            let rest = own_line_brace_from(filename@, l.skip(i + 1), (i + 2) as nat);
            assert((pre + mid) + rest =~= pre + (mid + rest));
        }
        i = i + 1;
    }
    proof {
        assert(l.skip(i as int).len() == 0);
        assert(r.deep_view() + own_line_brace_from(filename@, l.skip(i as int), (i + 1) as nat)
            =~= r.deep_view());
    }
    r
}

impl OwnLineBrace {
    pub fn new() -> (r: OwnLineBrace) {
        OwnLineBrace {  }
    }

    pub fn verify(&self, filename: &str, content: &str) -> (r: Vec<String>)
        ensures
            r.deep_view() == own_line_brace_diags(filename@, content@),
    {
        scan_own_line_brace(filename, content)
    }
}

impl Rule for OwnLineBrace {
    fn verify(&self, filename: &str, content: &str) -> Vec<String> {
        OwnLineBrace::verify(self, filename, content)
    }
}

// ---------------------------------------------------------------------------
// IndentationLevel: flat brace counting
// ---------------------------------------------------------------------------

/// Checks indentation by counting braces anywhere on a line, without region
/// kinds: a simpler forebear of the block-depth verifier.
pub struct IndentationLevel {
    pub nb_spaces: usize,
}

/// One step of the flat scan: a closing brace dedents (or is flagged at depth
/// zero), a non-blank line must sit at the level times the unit, an opening
/// brace indents.
pub open spec fn flat_step(
    file: Seq<char>,
    line: Seq<char>,
    ln: nat,
    level: nat,
    unit: nat,
) -> (Seq<Seq<char>>, nat) {
    let d1: Seq<Seq<char>> = if has_char(line, '}') && level == 0 {
        seq![render_finding(file, Finding::UnexpectedBrace { ln })]
    } else {
        Seq::empty()
    };
    let lvl1: nat = if has_char(line, '}') && level > 0 {
        (level - 1) as nat
    } else {
        level
    };
    let d2: Seq<Seq<char>> = if trim(line).len() > 0 && leading_spaces(line) != mulcap(
        lvl1,
        unit,
    ) {
        seq![
            render_finding(
                file,
                Finding::WrongIndent {
                    ln,
                    expected: mulcap(lvl1, unit),
                    got: leading_spaces(line),
                },
            ),
        ]
    } else {
        Seq::empty()
    };
    let lvl2: nat = if has_char(line, '{') {
        lvl1 + 1
    } else {
        lvl1
    };
    (d1 + d2, lvl2)
}

pub open spec fn flat_from(
    file: Seq<char>,
    lines: Seq<Seq<char>>,
    ln: nat,
    level: nat,
    unit: nat,
) -> Seq<Seq<char>>
    decreases lines.len(),
{
    if lines.len() == 0 {
        if level > 0 {
            seq![render_finding(file, Finding::MissingBraces { ln, open: level })]
        } else {
            Seq::empty()
        }
    } else {
        flat_step(file, lines[0], ln, level, unit).0 + flat_from(
            file,
            lines.drop_first(),
            ln + 1,
            flat_step(file, lines[0], ln, level, unit).1,
            unit,
        )
    }
}

/// Every diagnostic of the flat indentation rule, in line order, with one
/// final diagnostic for braces never closed.
pub open spec fn flat_indent_diags(file: Seq<char>, content: Seq<char>, unit: nat) -> Seq<
    Seq<char>,
> {
    flat_from(file, line_seq(content), 1, 0, unit)
}

impl IndentationLevel {
    pub fn new(nb_spaces_per_indentation_level: usize) -> (r: IndentationLevel)
        ensures
            r.nb_spaces == nb_spaces_per_indentation_level,
    {
        IndentationLevel { nb_spaces: nb_spaces_per_indentation_level }
    }

    pub fn verify(&self, filename: &str, content: &str) -> (r: Vec<String>)
        ensures
            r.deep_view() == flat_indent_diags(filename@, content@, self.nb_spaces as nat),
    {
        let lines = split_lines(content);
        let ghost l = lines.deep_view();
        let ghost u = self.nb_spaces as nat;
        let mut r: Vec<String> = Vec::new();
        let mut level: usize = 0;
        let mut i: usize = 0;
        proof {
            assert(l.skip(0) =~= l);
            assert(r.deep_view() =~= Seq::<Seq<char>>::empty());
            assert(r.deep_view() + flat_from(filename@, l, 1, 0, u) =~= flat_from(
                filename@,
                l,
                1,
                0,
                u,
            ));
        }
        while i < lines.len()
            invariant
                0 <= i <= lines@.len(),
                level <= i,
                l == lines.deep_view(),
                lines@.len() == l.len(),
                u == self.nb_spaces as nat,
                flat_indent_diags(filename@, content@, u) == r.deep_view() + flat_from(
                    filename@,
                    l.skip(i as int),
                    (i + 1) as nat,
                    level as nat,
                    u,
                ),
            decreases lines@.len() - i,
        {
            let line = &lines[i];
            proof {
                assert(l.skip(i as int)[0] =~= line@);
                assert(l.skip(i as int).drop_first() =~= l.skip(i + 1));
            }
            let ghost st: nat = level as nat;
            let ghost pre = r.deep_view();
            if contains_char(line, '}') {
                if level > 0 {
                    level = level - 1;
                } else {
                    let mut m = diag_prefix(filename, (i + 1) as u128);
                    m.append("Unexpected closing brace.");
                    proof {
                        assert(m@ =~= render_finding(
                            filename@,
                            Finding::UnexpectedBrace { ln: (i + 1) as nat },
                        ));
                    }
                    push_diag(&mut r, m);
                }
            }
            let tl = crate::indentation::trim_len(line);
            let got = leading(line);
            let expected = mul_capped(level, self.nb_spaces);
            if tl > 0 && got != expected {
                let m = wrong_indent_msg(filename, i + 1, expected, got);
                push_diag(&mut r, m);
            }
            if contains_char(line, '{') {
                level = level + 1;
            }
            proof {
                let (fe, st2) = flat_step(filename@, line@, (i + 1) as nat, st, u);
                assert(level as nat == st2);
                assert(r.deep_view() =~= pre + fe);
                let rest = flat_from(filename@, l.skip(i + 1), (i + 2) as nat, st2, u);
                assert((pre + fe) + rest =~= pre + (fe + rest));
            }
            i = i + 1;
        }
        if level > 0 {
            let mut m = diag_prefix(filename, (i as u128) + 1);
            m.append("Expected ");
            crate::text::append_decimal(&mut m, level as u128);
            m.append(" more closing brace.");
            proof {
                assert(m@ =~= render_finding(
                    filename@,
                    Finding::MissingBraces { ln: (i + 1) as nat, open: level as nat },
                ));
            }
            let ghost pre = r.deep_view();
            push_diag(&mut r, m);
            proof {
                assert(l.skip(i as int).len() == 0);
                assert(r.deep_view() =~= pre + flat_from(
                    filename@,
                    l.skip(i as int),
                    (i + 1) as nat,
                    level as nat,
                    u,
                ));
            }
        } else {
            proof {
                assert(l.skip(i as int).len() == 0);
                assert(r.deep_view() + flat_from(
                    filename@,
                    l.skip(i as int),
                    (i + 1) as nat,
                    level as nat,
                    u,
                ) =~= r.deep_view());
            }
        }
        r
    }
}

impl Rule for IndentationLevel {
    fn verify(&self, filename: &str, content: &str) -> Vec<String> {
        IndentationLevel::verify(self, filename, content)
    }
}

} // verus!
