//! Preprocessor rules: directive column and indentation, comments on `#else`
//! and `#endif`, multi-line macro alignment, macro names and arguments,
//! include placement and order, and header guards.

use vstd::prelude::*;
use vstd::string::*;

use crate::Rule;
use crate::text::{
    after_last, begins, begins_with, chars_equal, chars_to_string, concat_chars, contains_char,
    contains_sub, copy_range, decimal, diag_prefix, dots_to_underscores, ends, find_char,
    first_char_at, has_char, has_sub, last_char_at, leading, leading_spaces, line_seq, loc,
    lower_of, parts, push_diag, replace_dots, rfind_char, split_lines, split_on, split_words,
    str_chars, tail_after_last, to_lower, to_upper, trim, trim_end, trim_end_ends_with,
    trim_start, trimmed_begins_with, trimmed_copy, upper_of, words,
};

verus! {

// ---------------------------------------------------------------------------
// PreprocessorOnFirstColumn
// ---------------------------------------------------------------------------

/// Flags preprocessor directives not starting on the first column.
pub struct PreprocessorOnFirstColumn {}

pub open spec fn pofc_line(file: Seq<char>, line: Seq<char>, ln: nat) -> Seq<Seq<char>> {
    if begins(trim_start(line), "#"@) && !begins(line, "#"@) {
        seq![loc(file, ln) + "Preprocessor directive must start on the first column."@]
    } else {
        Seq::empty()
    }
}

pub open spec fn pofc_from(file: Seq<char>, lines: Seq<Seq<char>>, ln: nat) -> Seq<Seq<char>>
    decreases lines.len(),
{
    if lines.len() == 0 {
        Seq::empty()
    } else {
        pofc_line(file, lines[0], ln) + pofc_from(file, lines.drop_first(), ln + 1)
    }
}

/// Every diagnostic of the first-column rule, in line order.
pub open spec fn pofc_diags(file: Seq<char>, content: Seq<char>) -> Seq<Seq<char>> {
    pofc_from(file, line_seq(content), 1)
}

impl PreprocessorOnFirstColumn {
    pub fn new() -> (r: PreprocessorOnFirstColumn) {
        PreprocessorOnFirstColumn {  }
    }

    pub fn verify(&self, filename: &str, content: &str) -> (r: Vec<String>)
        ensures
            r.deep_view() == pofc_diags(filename@, content@),
    {
        let lines = split_lines(content);
        let ghost l = lines.deep_view();
        let mut r: Vec<String> = Vec::new();
        let mut i: usize = 0;
        proof {
            assert(l.skip(0) =~= l);
            assert(r.deep_view() =~= Seq::<Seq<char>>::empty());
            assert(r.deep_view() + pofc_from(filename@, l, 1) =~= pofc_from(filename@, l, 1));
        }
        while i < lines.len()
            invariant
                0 <= i <= lines@.len(),
                l == lines.deep_view(),
                lines@.len() == l.len(),
                pofc_diags(filename@, content@) == r.deep_view() + pofc_from(
                    filename@,
                    l.skip(i as int),
                    (i + 1) as nat,
                ),
            decreases lines@.len() - i,
        {
            let line = &lines[i];
            proof {
                assert(l.skip(i as int)[0] =~= line@);
                assert(l.skip(i as int).drop_first() =~= l.skip(i + 1));
            }
            let ghost pre = r.deep_view();
            if trimmed_begins_with(line, "#") && !begins_with(line, "#") {
                let mut m = diag_prefix(filename, (i + 1) as u128);
                m.append("Preprocessor directive must start on the first column.");
                push_diag(&mut r, m);
            }
            proof {
                let mid = pofc_line(filename@, line@, (i + 1) as nat);
                assert(r.deep_view() =~= pre + mid);
                let rest = pofc_from(filename@, l.skip(i + 1), (i + 2) as nat);
                assert((pre + mid) + rest =~= pre + (mid + rest));
            }
            i = i + 1;
        }
        proof {
            assert(l.skip(i as int).len() == 0);
            assert(r.deep_view() + pofc_from(filename@, l.skip(i as int), (i + 1) as nat)
                =~= r.deep_view());
        }
        r
    }
}

impl Rule for PreprocessorOnFirstColumn {
    fn verify(&self, filename: &str, content: &str) -> Vec<String> {
        PreprocessorOnFirstColumn::verify(self, filename, content)
    }
}

// ---------------------------------------------------------------------------
// PreprocessorIndentation
// ---------------------------------------------------------------------------

/// Flags directives whose spacing after `#` does not match the conditional
/// nesting level.
pub struct PreprocessorIndentation {}

/// One step of the directive-indentation scan: `else` and `endif` dedent (the
/// level is clamped at zero), the spacing after `#` must equal the level, and
/// `if` and `else` indent.
pub open spec fn ppi_step(file: Seq<char>, line: Seq<char>, ln: nat, level: nat) -> (Seq<
    Seq<char>,
>, nat) {
    if begins(line, "#"@) {
        let lvl1: nat = if has_sub(line, "else"@) || has_sub(line, "endif"@) {
            if level > 0 {
                (level - 1) as nat
            } else {
                0
            }
        } else {
            level
        };
        let nbws = leading_spaces(line.drop_first());
        let d: Seq<Seq<char>> = if nbws != lvl1 {
            seq![
                loc(file, ln) + "Expected "@ + decimal(lvl1) + " white space after #, found "@
                    + decimal(nbws) + "."@,
            ]
        } else {
            Seq::empty()
        };
        let lvl2: nat = if has_sub(line, "if"@) || has_sub(line, "else"@) {
            lvl1 + 1
        } else {
            lvl1
        };
        (d, lvl2)
    } else {
        (Seq::empty(), level)
    }
}

pub open spec fn ppi_from(file: Seq<char>, lines: Seq<Seq<char>>, ln: nat, level: nat) -> Seq<
    Seq<char>,
>
    decreases lines.len(),
{
    if lines.len() == 0 {
        Seq::empty()
    } else {
        ppi_step(file, lines[0], ln, level).0 + ppi_from(
            file,
            lines.drop_first(),
            ln + 1,
            ppi_step(file, lines[0], ln, level).1,
        )
    }
}

/// Every diagnostic of the directive-indentation rule, in line order.
pub open spec fn ppi_diags(file: Seq<char>, content: Seq<char>) -> Seq<Seq<char>> {
    ppi_from(file, line_seq(content), 1, 0)
}

impl PreprocessorIndentation {
    pub fn new() -> (r: PreprocessorIndentation) {
        PreprocessorIndentation {  }
    }

    #[verifier::rlimit(50)]
    pub fn verify(&self, filename: &str, content: &str) -> (r: Vec<String>)
        ensures
            r.deep_view() == ppi_diags(filename@, content@),
    {
        let lines = split_lines(content);
        let ghost l = lines.deep_view();
        let mut r: Vec<String> = Vec::new();
        let mut level: usize = 0;
        let mut i: usize = 0;
        proof {
            assert(l.skip(0) =~= l);
            assert(r.deep_view() =~= Seq::<Seq<char>>::empty());
            assert(r.deep_view() + ppi_from(filename@, l, 1, 0) =~= ppi_from(filename@, l, 1, 0));
        }
        while i < lines.len()
            invariant
                0 <= i <= lines@.len(),
                level <= i,
                l == lines.deep_view(),
                lines@.len() == l.len(),
                ppi_diags(filename@, content@) == r.deep_view() + ppi_from(
                    filename@,
                    l.skip(i as int),
                    (i + 1) as nat,
                    level as nat,
                ),
            decreases lines@.len() - i,
        {
            let ghost st: nat = level as nat;
            let line = &lines[i];
            proof {
                assert(l.skip(i as int)[0] =~= line@);
                assert(l.skip(i as int).drop_first() =~= l.skip(i + 1));
            }
            let ghost pre = r.deep_view();
            if begins_with(line, "#") {
                if contains_sub(line, "else") || contains_sub(line, "endif") {
                    if level > 0 {
                        level = level - 1;
                    }
                }
                proof {
                    reveal_strlit("#");
                }
                let rest = copy_range(line, 1, line.len());
                proof {
                    assert(rest@ =~= line@.drop_first());
                }
                let nbws = leading(&rest);
                if nbws != level {
                    let mut m = diag_prefix(filename, (i + 1) as u128);
                    m.append("Expected ");
                    crate::text::append_decimal(&mut m, level as u128);
                    m.append(" white space after #, found ");
                    crate::text::append_decimal(&mut m, nbws as u128);
                    m.append(".");
                    push_diag(&mut r, m);
                }
                if contains_sub(line, "if") || contains_sub(line, "else") {
                    level = level + 1;
                }
            }
            proof {
                let (fe, st2) = ppi_step(filename@, line@, (i + 1) as nat, st);
                assert(level as nat == st2);
                assert(r.deep_view() =~= pre + fe);
                let rest2 = ppi_from(filename@, l.skip(i + 1), (i + 2) as nat, st2);
                assert((pre + fe) + rest2 =~= pre + (fe + rest2));
            }
            i = i + 1;
        }
        proof {
            assert(l.skip(i as int).len() == 0);
            assert(r.deep_view() + ppi_from(filename@, l.skip(i as int), (i + 1) as nat, level as nat)
                =~= r.deep_view());
        }
        r
    }
}

impl Rule for PreprocessorIndentation {
    fn verify(&self, filename: &str, content: &str) -> Vec<String> {
        PreprocessorIndentation::verify(self, filename, content)
    }
}

// ---------------------------------------------------------------------------
// PreprocessorComment
// ---------------------------------------------------------------------------

/// Flags `#else` and `#endif` without a comment naming their condition.
pub struct PreprocessorComment {}

pub open spec fn ppc_line(file: Seq<char>, line: Seq<char>, ln: nat) -> Seq<Seq<char>> {
    if begins(line, "#"@) && (has_sub(line, "endif"@) || has_sub(line, "else"@)) && !(has_sub(
        line,
        "/*"@,
    ) && has_sub(line, "*/"@)) && !has_sub(line, "//"@) {
        seq![
            loc(file, ln)
                + "#else and #endif directives must have a comment describing their initial condition."@,
        ]
    } else {
        Seq::empty()
    }
}

pub open spec fn ppc_from(file: Seq<char>, lines: Seq<Seq<char>>, ln: nat) -> Seq<Seq<char>>
    decreases lines.len(),
{
    if lines.len() == 0 {
        Seq::empty()
    } else {
        ppc_line(file, lines[0], ln) + ppc_from(file, lines.drop_first(), ln + 1)
    }
}

/// Every diagnostic of the directive-comment rule, in line order.
pub open spec fn ppc_diags(file: Seq<char>, content: Seq<char>) -> Seq<Seq<char>> {
    ppc_from(file, line_seq(content), 1)
}

impl PreprocessorComment {
    pub fn new() -> (r: PreprocessorComment) {
        PreprocessorComment {  }
    }

    pub fn verify(&self, filename: &str, content: &str) -> (r: Vec<String>)
        ensures
            r.deep_view() == ppc_diags(filename@, content@),
    {
        let lines = split_lines(content);
        let ghost l = lines.deep_view();
        let mut r: Vec<String> = Vec::new();
        let mut i: usize = 0;
        proof {
            assert(l.skip(0) =~= l);
            assert(r.deep_view() =~= Seq::<Seq<char>>::empty());
            assert(r.deep_view() + ppc_from(filename@, l, 1) =~= ppc_from(filename@, l, 1));
        }
        while i < lines.len()
            invariant
                0 <= i <= lines@.len(),
                l == lines.deep_view(),
                lines@.len() == l.len(),
                ppc_diags(filename@, content@) == r.deep_view() + ppc_from(
                    filename@,
                    l.skip(i as int),
                    (i + 1) as nat,
                ),
            decreases lines@.len() - i,
        {
            let line = &lines[i];
            proof {
                assert(l.skip(i as int)[0] =~= line@);
                assert(l.skip(i as int).drop_first() =~= l.skip(i + 1));
            }
            let ghost pre = r.deep_view();
            if begins_with(line, "#") && (contains_sub(line, "endif") || contains_sub(line, "else"))
                && !(contains_sub(line, "/*") && contains_sub(line, "*/")) && !contains_sub(
                line,
                "//",
            ) {
                let mut m = diag_prefix(filename, (i + 1) as u128);
                m.append(
                    "#else and #endif directives must have a comment describing their initial condition.",
                );
                push_diag(&mut r, m);
            }
            proof {
                let mid = ppc_line(filename@, line@, (i + 1) as nat);
                assert(r.deep_view() =~= pre + mid);
                let rest = ppc_from(filename@, l.skip(i + 1), (i + 2) as nat);
                assert((pre + mid) + rest =~= pre + (mid + rest));
            }
            i = i + 1;
        }
        proof {
            assert(l.skip(i as int).len() == 0);
            assert(r.deep_view() + ppc_from(filename@, l.skip(i as int), (i + 1) as nat)
                =~= r.deep_view());
        }
        r
    }
}

impl Rule for PreprocessorComment {
    fn verify(&self, filename: &str, content: &str) -> Vec<String> {
        PreprocessorComment::verify(self, filename, content)
    }
}

// ---------------------------------------------------------------------------
// MultiLinesMacro
// ---------------------------------------------------------------------------

/// Flags multi-line macros whose continuation backslashes are not aligned.
pub struct MultiLinesMacro {}

/// The scan state of the macro-alignment rule: whether the scan stands in a
/// multi-line macro, and the column of its first backslash.
pub ghost struct MlmState {
    pub inm: bool,
    pub align: nat,
}

/// One step of the macro-alignment scan.
pub open spec fn mlm_step(file: Seq<char>, line: Seq<char>, ln: nat, st: MlmState) -> (Seq<
    Seq<char>,
>, MlmState) {
    let continued = ends(trim_end(line), "\\"@);
    let opened = begins(line, "#"@) && continued;
    let inm1 = opened || st.inm;
    let align1: nat = if opened && last_char_at(line, '\\') >= 0 {
        last_char_at(line, '\\') as nat
    } else {
        st.align
    };
    if inm1 {
        if continued {
            let d: Seq<Seq<char>> = if last_char_at(line, '\\') >= 0 && last_char_at(line, '\\')
                != align1 {
                seq![
                    loc(file, ln) + "Multi lines macro must have \\ aligned. Expected alignement on column "@
                        + decimal(align1) + " got "@ + decimal(
                        last_char_at(line, '\\') as nat,
                    ),
                ]
            } else {
                Seq::empty()
            };
            (d, MlmState { inm: inm1, align: align1 })
        } else {
            (Seq::empty(), MlmState { inm: false, align: align1 })
        }
    } else {
        (Seq::empty(), MlmState { inm: inm1, align: align1 })
    }
}

pub open spec fn mlm_from(file: Seq<char>, lines: Seq<Seq<char>>, ln: nat, st: MlmState) -> Seq<
    Seq<char>,
>
    decreases lines.len(),
{
    if lines.len() == 0 {
        Seq::empty()
    } else {
        mlm_step(file, lines[0], ln, st).0 + mlm_from(
            file,
            lines.drop_first(),
            ln + 1,
            mlm_step(file, lines[0], ln, st).1,
        )
    }
}

/// Every diagnostic of the macro-alignment rule, in line order.
pub open spec fn mlm_diags(file: Seq<char>, content: Seq<char>) -> Seq<Seq<char>> {
    mlm_from(file, line_seq(content), 1, MlmState { inm: false, align: 0 })
}

impl MultiLinesMacro {
    pub fn new() -> (r: MultiLinesMacro) {
        MultiLinesMacro {  }
    }

    #[verifier::rlimit(50)]
    pub fn verify(&self, filename: &str, content: &str) -> (r: Vec<String>)
        ensures
            r.deep_view() == mlm_diags(filename@, content@),
    {
        let lines = split_lines(content);
        let ghost l = lines.deep_view();
        let mut r: Vec<String> = Vec::new();
        let mut inm: bool = false;
        let mut align: usize = 0;
        let mut i: usize = 0;
        proof {
            assert(l.skip(0) =~= l);
            assert(r.deep_view() =~= Seq::<Seq<char>>::empty());
            assert(r.deep_view() + mlm_from(filename@, l, 1, MlmState { inm: false, align: 0 })
                =~= mlm_from(filename@, l, 1, MlmState { inm: false, align: 0 }));
        }
        while i < lines.len()
            invariant
                0 <= i <= lines@.len(),
                l == lines.deep_view(),
                lines@.len() == l.len(),
                mlm_diags(filename@, content@) == r.deep_view() + mlm_from(
                    filename@,
                    l.skip(i as int),
                    (i + 1) as nat,
                    MlmState { inm: inm, align: align as nat },
                ),
            decreases lines@.len() - i,
        {
            let ghost st = MlmState { inm: inm, align: align as nat };
            let line = &lines[i];
            proof {
                assert(l.skip(i as int)[0] =~= line@);
                assert(l.skip(i as int).drop_first() =~= l.skip(i + 1));
            }
            let ghost pre = r.deep_view();
            let continued = trim_end_ends_with(line, "\\");
            if begins_with(line, "#") && continued {
                inm = true;
                match rfind_char(line, '\\') {
                    Some(k) => {
                        align = k;
                    },
                    None => {
                    },
                }
            }
            if inm {
                if continued {
                    match rfind_char(line, '\\') {
                        Some(k) => {
                            if k != align {
                                let mut m = diag_prefix(filename, (i + 1) as u128);
                                m.append(
                                    "Multi lines macro must have \\ aligned. Expected alignement on column ",
                                );
                                crate::text::append_decimal(&mut m, align as u128);
                                m.append(" got ");
                                crate::text::append_decimal(&mut m, k as u128);
                                push_diag(&mut r, m);
                            }
                        },
                        None => {
                        },
                    }
                } else {
                    inm = false;
                }
            }
            proof {
                let (fe, st2) = mlm_step(filename@, line@, (i + 1) as nat, st);
                assert(MlmState { inm: inm, align: align as nat } == st2);
                assert(r.deep_view() =~= pre + fe);
                let rest = mlm_from(filename@, l.skip(i + 1), (i + 2) as nat, st2);
                assert((pre + fe) + rest =~= pre + (fe + rest));
            }
            i = i + 1;
        }
        proof {
            assert(l.skip(i as int).len() == 0);
            assert(r.deep_view() + mlm_from(
                filename@,
                l.skip(i as int),
                (i + 1) as nat,
                MlmState { inm: inm, align: align as nat },
            ) =~= r.deep_view());
        }
        r
    }
}

impl Rule for MultiLinesMacro {
    fn verify(&self, filename: &str, content: &str) -> Vec<String> {
        MultiLinesMacro::verify(self, filename, content)
    }
}

// ---------------------------------------------------------------------------
// MacroName
// ---------------------------------------------------------------------------

/// Flags macro names that are not fully capitalized.
pub struct MacroName {}

/// The diagnostic of the macro-name rule for one line: on a `#...def...`
/// directive, the word after the directive (or after a bare `#`) must equal
/// its own uppercase form, up to its parenthesis.
pub open spec fn mn_line(file: Seq<char>, line: Seq<char>, ln: nat) -> Seq<Seq<char>> {
    if begins(line, "#"@) && has_sub(line, "def"@) && words(line).len() > 0 {
        let idx: int = if has_sub(words(line)[0], "def"@) {
            1
        } else {
            2
        };
        if idx < words(line).len() {
            let nw = words(line)[idx];
            let name = nw.take(first_char_at(nw, '('));
            if upper_of(name) != name {
                seq![
                    loc(file, ln) + "Macro name must have be entirely capitalized. Expected \""@
                        + upper_of(name) + "\" got \""@ + name + "\""@,
                ]
            } else {
                Seq::empty()
            }
        } else {
            Seq::empty()
        }
    } else {
        Seq::empty()
    }
}

pub open spec fn mn_from(file: Seq<char>, lines: Seq<Seq<char>>, ln: nat) -> Seq<Seq<char>>
    decreases lines.len(),
{
    if lines.len() == 0 {
        Seq::empty()
    } else {
        mn_line(file, lines[0], ln) + mn_from(file, lines.drop_first(), ln + 1)
    }
}

/// Every diagnostic of the macro-name rule, in line order.
pub open spec fn mn_diags(file: Seq<char>, content: Seq<char>) -> Seq<Seq<char>> {
    mn_from(file, line_seq(content), 1)
}

fn emit_mn(r: &mut Vec<String>, file: &str, line: &Vec<char>, ln: usize)
    ensures
        final(r).deep_view() == old(r).deep_view() + mn_line(file@, line@, ln as nat),
{
    let ghost pre = r.deep_view();
    if begins_with(line, "#") && contains_sub(line, "def") {
        let ws = split_words(line);
        if ws.len() > 0 {
            proof {
                assert(ws.deep_view()[0] =~= ws@[0]@);
                assert(words(line@)[0] == ws@[0]@);
            }
            let idx: usize = if contains_sub(&ws[0], "def") {
                1
            } else {
                2
            };
            if idx < ws.len() {
                proof {
                    assert(ws.deep_view()[idx as int] =~= ws@[idx as int]@);
                    assert(words(line@)[idx as int] == ws@[idx as int]@);
                }
                let nw = &ws[idx];
                let p = find_char(nw, '(');
                let name = copy_range(nw, 0, p);
                proof {
                    assert(name@ =~= words(line@)[idx as int].take(
                        first_char_at(words(line@)[idx as int], '('),
                    ));
                }
                let up = to_upper(&name);
                if !chars_equal(&up, &name) {
                    let mut m = diag_prefix(file, ln as u128);
                    m.append("Macro name must have be entirely capitalized. Expected \"");
                    let u = chars_to_string(&up);
                    m.append(u.as_str());
                    m.append("\" got \"");
                    let nm = chars_to_string(&name);
                    m.append(nm.as_str());
                    m.append("\"");
                    push_diag(r, m);
                }
            }
        }
    }
    proof {
        assert(r.deep_view() =~= pre + mn_line(file@, line@, ln as nat));
    }
}

impl MacroName {
    pub fn new() -> (r: MacroName) {
        MacroName {  }
    }

    pub fn verify(&self, filename: &str, content: &str) -> (r: Vec<String>)
        ensures
            r.deep_view() == mn_diags(filename@, content@),
    {
        let lines = split_lines(content);
        let ghost l = lines.deep_view();
        let mut r: Vec<String> = Vec::new();
        let mut i: usize = 0;
        proof {
            assert(l.skip(0) =~= l);
            assert(r.deep_view() =~= Seq::<Seq<char>>::empty());
            assert(r.deep_view() + mn_from(filename@, l, 1) =~= mn_from(filename@, l, 1));
        }
        while i < lines.len()
            invariant
                0 <= i <= lines@.len(),
                l == lines.deep_view(),
                lines@.len() == l.len(),
                mn_diags(filename@, content@) == r.deep_view() + mn_from(
                    filename@,
                    l.skip(i as int),
                    (i + 1) as nat,
                ),
            decreases lines@.len() - i,
        {
            let line = &lines[i];
            proof {
                assert(l.skip(i as int)[0] =~= line@);
                assert(l.skip(i as int).drop_first() =~= l.skip(i + 1));
            }
            let ghost pre = r.deep_view();
            emit_mn(&mut r, filename, line, i + 1);
            proof {
                let mid = mn_line(filename@, line@, (i + 1) as nat);
                let rest = mn_from(filename@, l.skip(i + 1), (i + 2) as nat);
                assert((pre + mid) + rest =~= pre + (mid + rest));
            }
            i = i + 1;
        }
        proof {
            assert(l.skip(i as int).len() == 0);
            assert(r.deep_view() + mn_from(filename@, l.skip(i as int), (i + 1) as nat)
                =~= r.deep_view());
        }
        r
    }
}

impl Rule for MacroName {
    fn verify(&self, filename: &str, content: &str) -> Vec<String> {
        MacroName::verify(self, filename, content)
    }
}

// ---------------------------------------------------------------------------
// MacroArguments
// ---------------------------------------------------------------------------

/// Flags macro arguments that are not capitalized like `Argument`.
pub struct MacroArguments {}

/// The diagnostic for one argument: trimmed, it must equal its first
/// character uppercased followed by the rest lowercased.
pub open spec fn ma_part(file: Seq<char>, part: Seq<char>, ln: nat) -> Seq<Seq<char>> {
    let t = trim(part);
    if t.len() > 0 {
        let good = upper_of(t.take(1)) + lower_of(t.skip(1));
        if good != t {
            seq![
                loc(file, ln) + "Macro arguments must have be capitalized. Expected \""@ + good
                    + "\" got \""@ + t + "\""@,
            ]
        } else {
            Seq::empty()
        }
    } else {
        Seq::empty()
    }
}

pub open spec fn ma_parts_from(file: Seq<char>, ps: Seq<Seq<char>>, ln: nat) -> Seq<Seq<char>>
    decreases ps.len(),
{
    if ps.len() == 0 {
        Seq::empty()
    } else {
        ma_part(file, ps[0], ln) + ma_parts_from(file, ps.drop_first(), ln)
    }
}

/// The scan state of the macro-arguments rule.
pub ghost struct MaState {
    pub inm: bool,
    pub inarg: bool,
}

/// One step of the macro-arguments scan: inside a macro, the text between the
/// first parenthesis and the first closing parenthesis is checked argument by
/// argument; a backslash continues the macro.
pub open spec fn ma_step(file: Seq<char>, line: Seq<char>, ln: nat, st: MaState) -> (Seq<
    Seq<char>,
>, MaState) {
    let inm1 = begins(line, "#"@) || st.inm;
    if inm1 {
        let hasopen = has_char(line, '(');
        let work0 = if hasopen {
            line.skip(first_char_at(line, '(') + 1)
        } else {
            line
        };
        let inarg1 = hasopen || st.inarg;
        let work = work0.take(first_char_at(work0, ')'));
        let d: Seq<Seq<char>> = if inarg1 {
            ma_parts_from(file, parts(work, ','), ln)
        } else {
            Seq::empty()
        };
        (d, MaState { inm: has_char(work, '\\'), inarg: inarg1 })
    } else {
        (Seq::empty(), MaState { inm: st.inm, inarg: st.inarg })
    }
}

pub open spec fn ma_from(file: Seq<char>, lines: Seq<Seq<char>>, ln: nat, st: MaState) -> Seq<
    Seq<char>,
>
    decreases lines.len(),
{
    if lines.len() == 0 {
        Seq::empty()
    } else {
        ma_step(file, lines[0], ln, st).0 + ma_from(
            file,
            lines.drop_first(),
            ln + 1,
            ma_step(file, lines[0], ln, st).1,
        )
    }
}

/// Every diagnostic of the macro-arguments rule, in line order.
pub open spec fn ma_diags(file: Seq<char>, content: Seq<char>) -> Seq<Seq<char>> {
    ma_from(file, line_seq(content), 1, MaState { inm: false, inarg: false })
}

/// Emits the diagnostics for one argument list.
fn emit_ma_parts(r: &mut Vec<String>, file: &str, work: &Vec<char>, ln: usize)
    ensures
        final(r).deep_view() == old(r).deep_view() + ma_parts_from(
            file@,
            parts(work@, ','),
            ln as nat,
        ),
{
    let ghost start = r.deep_view();
    let ps = split_on(work, ',');
    let ghost pv = ps.deep_view();
    let mut j: usize = 0;
    proof {
        assert(pv.skip(0) =~= pv);
        assert(start + ma_parts_from(file@, pv, ln as nat) =~= start + ma_parts_from(
            file@,
            pv.skip(0),
            ln as nat,
        ));
    }
    while j < ps.len()
        invariant
            0 <= j <= ps@.len(),
            pv == ps.deep_view(),
            ps@.len() == pv.len(),
            start + ma_parts_from(file@, pv, ln as nat) == r.deep_view() + ma_parts_from(
                file@,
                pv.skip(j as int),
                ln as nat,
            ),
        decreases ps@.len() - j,
    {
        let part = &ps[j];
        proof {
            assert(pv.skip(j as int)[0] =~= part@);
            assert(pv.skip(j as int).drop_first() =~= pv.skip(j + 1));
        }
        let ghost pre = r.deep_view();
        let t = trimmed_copy(part);
        if t.len() > 0 {
            let first = copy_range(&t, 0, 1);
            let up = to_upper(&first);
            let rest = copy_range(&t, 1, t.len());
            let low = to_lower(&rest);
            let good = concat_chars(&up, &low);
            proof {
                assert(first@ =~= trim(part@).take(1));
                assert(rest@ =~= trim(part@).skip(1));
            }
            if !chars_equal(&good, &t) {
                let mut m = diag_prefix(file, ln as u128);
                m.append("Macro arguments must have be capitalized. Expected \"");
                let g = chars_to_string(&good);
                m.append(g.as_str());
                m.append("\" got \"");
                let a = chars_to_string(&t);
                m.append(a.as_str());
                m.append("\"");
                push_diag(r, m);
            }
        }
        proof {
            let mid = ma_part(file@, part@, ln as nat);
            assert(r.deep_view() =~= pre + mid);
            let rest2 = ma_parts_from(file@, pv.skip(j + 1), ln as nat);
            assert((pre + mid) + rest2 =~= pre + (mid + rest2));
        }
        j = j + 1;
    }
    proof {
        assert(pv.skip(j as int).len() == 0);
        assert(r.deep_view() + ma_parts_from(file@, pv.skip(j as int), ln as nat)
            =~= r.deep_view());
    }
}

impl MacroArguments {
    pub fn new() -> (r: MacroArguments) {
        MacroArguments {  }
    }

    #[verifier::rlimit(50)]
    pub fn verify(&self, filename: &str, content: &str) -> (r: Vec<String>)
        ensures
            r.deep_view() == ma_diags(filename@, content@),
    {
        let lines = split_lines(content);
        let ghost l = lines.deep_view();
        let mut r: Vec<String> = Vec::new();
        let mut inm: bool = false;
        let mut inarg: bool = false;
        let mut i: usize = 0;
        proof {
            assert(l.skip(0) =~= l);
            assert(r.deep_view() =~= Seq::<Seq<char>>::empty());
            assert(r.deep_view() + ma_from(filename@, l, 1, MaState { inm: false, inarg: false })
                =~= ma_from(filename@, l, 1, MaState { inm: false, inarg: false }));
        }
        while i < lines.len()
            invariant
                0 <= i <= lines@.len(),
                l == lines.deep_view(),
                lines@.len() == l.len(),
                ma_diags(filename@, content@) == r.deep_view() + ma_from(
                    filename@,
                    l.skip(i as int),
                    (i + 1) as nat,
                    MaState { inm: inm, inarg: inarg },
                ),
            decreases lines@.len() - i,
        {
            let ghost st = MaState { inm: inm, inarg: inarg };
            let line = &lines[i];
            proof {
                assert(l.skip(i as int)[0] =~= line@);
                assert(l.skip(i as int).drop_first() =~= l.skip(i + 1));
            }
            let ghost pre = r.deep_view();
            if begins_with(line, "#") {
                inm = true;
            }
            if inm {
                let llen = line.len();
                let hasopen = contains_char(line, '(');
                let work0: Vec<char> = if hasopen {
                    let p = find_char(line, '(');
                    copy_range(line, p + 1, llen)
                } else {
                    copy_range(line, 0, llen)
                };
                proof {
                    if hasopen {
                        assert(work0@ =~= line@.skip(first_char_at(line@, '(') + 1));
                    } else {
                        assert(work0@ =~= line@);
                    }
                }
                if hasopen {
                    inarg = true;
                }
                let q = find_char(&work0, ')');
                let work = copy_range(&work0, 0, q);
                proof {
                    assert(work@ =~= work0@.take(first_char_at(work0@, ')')));
                }
                if inarg {
                    emit_ma_parts(&mut r, filename, &work, i + 1);
                }
                inm = contains_char(&work, '\\');
            }
            proof {
                let (fe, st2) = ma_step(filename@, line@, (i + 1) as nat, st);
                assert(MaState { inm: inm, inarg: inarg } == st2);
                assert(r.deep_view() =~= pre + fe);
                let rest = ma_from(filename@, l.skip(i + 1), (i + 2) as nat, st2);
                assert((pre + fe) + rest =~= pre + (fe + rest));
            }
            i = i + 1;
        }
        proof {
            assert(l.skip(i as int).len() == 0);
            assert(r.deep_view() + ma_from(
                filename@,
                l.skip(i as int),
                (i + 1) as nat,
                MaState { inm: inm, inarg: inarg },
            ) =~= r.deep_view());
        }
        r
    }
}

impl Rule for MacroArguments {
    fn verify(&self, filename: &str, content: &str) -> Vec<String> {
        MacroArguments::verify(self, filename, content)
    }
}

// ---------------------------------------------------------------------------
// IncludePreprocessor
// ---------------------------------------------------------------------------

/// Flags `#include` directives that come after code.
pub struct IncludePreprocessor {}

/// The scan state of the include-placement rule: whether code was seen, and
/// whether the scan stands in a multi-line macro or comment.
pub ghost struct IppState {
    pub seen_code: bool,
    pub mlm: bool,
    pub mlc: bool,
}

/// One step of the include-placement scan.
pub open spec fn ipp_step(file: Seq<char>, line: Seq<char>, ln: nat, st: IppState) -> (Seq<
    Seq<char>,
>, IppState) {
    if begins(line, "#"@) {
        let mlm1 = has_sub(line, "\\"@) || st.mlm;
        let d: Seq<Seq<char>> = if has_sub(line, "include"@) && st.seen_code {
            seq![loc(file, ln) + "All #include directive must appear at the start of the file."@]
        } else {
            Seq::empty()
        };
        (d, IppState { seen_code: st.seen_code, mlm: mlm1, mlc: st.mlc })
    } else if !begins(trim_start(line), "//"@) {
        let mlc1 = has_sub(line, "/*"@) || st.mlc;
        if !mlc1 {
            let seen1 = st.seen_code || (!st.mlm && trim(line).len() > 0);
            let mlm1 = if st.mlm && !has_sub(line, "\\"@) {
                false
            } else {
                st.mlm
            };
            (Seq::empty(), IppState { seen_code: seen1, mlm: mlm1, mlc: mlc1 })
        } else {
            let mlc2 = if has_sub(line, "*/"@) {
                false
            } else {
                mlc1
            };
            (Seq::empty(), IppState { seen_code: st.seen_code, mlm: st.mlm, mlc: mlc2 })
        }
    } else {
        (Seq::empty(), st)
    }
}

pub open spec fn ipp_from(file: Seq<char>, lines: Seq<Seq<char>>, ln: nat, st: IppState) -> Seq<
    Seq<char>,
>
    decreases lines.len(),
{
    if lines.len() == 0 {
        Seq::empty()
    } else {
        ipp_step(file, lines[0], ln, st).0 + ipp_from(
            file,
            lines.drop_first(),
            ln + 1,
            ipp_step(file, lines[0], ln, st).1,
        )
    }
}

/// Every diagnostic of the include-placement rule, in line order.
pub open spec fn ipp_diags(file: Seq<char>, content: Seq<char>) -> Seq<Seq<char>> {
    ipp_from(file, line_seq(content), 1, IppState { seen_code: false, mlm: false, mlc: false })
}

impl IncludePreprocessor {
    pub fn new() -> (r: IncludePreprocessor) {
        IncludePreprocessor {  }
    }

    #[verifier::rlimit(50)]
    pub fn verify(&self, filename: &str, content: &str) -> (r: Vec<String>)
        ensures
            r.deep_view() == ipp_diags(filename@, content@),
    {
        let lines = split_lines(content);
        let ghost l = lines.deep_view();
        let mut r: Vec<String> = Vec::new();
        let mut seen_code: bool = false;
        let mut mlm: bool = false;
        let mut mlc: bool = false;
        let mut i: usize = 0;
        proof {
            assert(l.skip(0) =~= l);
            assert(r.deep_view() =~= Seq::<Seq<char>>::empty());
            assert(r.deep_view() + ipp_from(
                filename@,
                l,
                1,
                IppState { seen_code: false, mlm: false, mlc: false },
            ) =~= ipp_from(filename@, l, 1, IppState { seen_code: false, mlm: false, mlc: false }));
        }
        while i < lines.len()
            invariant
                0 <= i <= lines@.len(),
                l == lines.deep_view(),
                lines@.len() == l.len(),
                ipp_diags(filename@, content@) == r.deep_view() + ipp_from(
                    filename@,
                    l.skip(i as int),
                    (i + 1) as nat,
                    IppState { seen_code: seen_code, mlm: mlm, mlc: mlc },
                ),
            decreases lines@.len() - i,
        {
            let ghost st = IppState { seen_code: seen_code, mlm: mlm, mlc: mlc };
            let line = &lines[i];
            proof {
                assert(l.skip(i as int)[0] =~= line@);
                assert(l.skip(i as int).drop_first() =~= l.skip(i + 1));
            }
            let ghost pre = r.deep_view();
            if begins_with(line, "#") {
                if contains_sub(line, "\\") {
                    mlm = true;
                }
                if contains_sub(line, "include") && seen_code {
                    let mut m = diag_prefix(filename, (i + 1) as u128);
                    m.append("All #include directive must appear at the start of the file.");
                    push_diag(&mut r, m);
                }
            } else if !trimmed_begins_with(line, "//") {
                if contains_sub(line, "/*") {
                    mlc = true;
                }
                if !mlc {
                    if !mlm && crate::indentation::trim_len(line) > 0 {
                        seen_code = true;
                    }
                    if mlm && !contains_sub(line, "\\") {
                        mlm = false;
                    }
                } else if contains_sub(line, "*/") {
                    mlc = false;
                }
            }
            proof {
                let (fe, st2) = ipp_step(filename@, line@, (i + 1) as nat, st);
                assert(IppState { seen_code: seen_code, mlm: mlm, mlc: mlc } == st2);
                assert(r.deep_view() =~= pre + fe);
                let rest = ipp_from(filename@, l.skip(i + 1), (i + 2) as nat, st2);
                assert((pre + fe) + rest =~= pre + (fe + rest));
            }
            i = i + 1;
        }
        proof {
            assert(l.skip(i as int).len() == 0);
            assert(r.deep_view() + ipp_from(
                filename@,
                l.skip(i as int),
                (i + 1) as nat,
                IppState { seen_code: seen_code, mlm: mlm, mlc: mlc },
            ) =~= r.deep_view());
        }
        r
    }
}

impl Rule for IncludePreprocessor {
    fn verify(&self, filename: &str, content: &str) -> Vec<String> {
        IncludePreprocessor::verify(self, filename, content)
    }
}

// ---------------------------------------------------------------------------
// IncludeOrder
// ---------------------------------------------------------------------------

/// Flags, in headers, a system include after a local one.
pub struct IncludeOrder {}

/// One step of the include-order scan; the state is whether a local include
/// was seen.
pub open spec fn io_step(file: Seq<char>, line: Seq<char>, ln: nat, seen_local: bool) -> (Seq<
    Seq<char>,
>, bool) {
    if begins(line, "#"@) && has_sub(line, "include"@) {
        if has_sub(line, "\""@) {
            (Seq::empty(), true)
        } else if has_sub(line, "<"@) && seen_local {
            (
                seq![loc(file, ln) + "System headers must appear before locals one."@],
                seen_local,
            )
        } else {
            (Seq::empty(), seen_local)
        }
    } else {
        (Seq::empty(), seen_local)
    }
}

pub open spec fn io_from(file: Seq<char>, lines: Seq<Seq<char>>, ln: nat, seen_local: bool) -> Seq<
    Seq<char>,
>
    decreases lines.len(),
{
    if lines.len() == 0 {
        Seq::empty()
    } else {
        io_step(file, lines[0], ln, seen_local).0 + io_from(
            file,
            lines.drop_first(),
            ln + 1,
            io_step(file, lines[0], ln, seen_local).1,
        )
    }
}

/// Every diagnostic of the include-order rule: nothing unless the file is a
/// header.
pub open spec fn io_diags(file: Seq<char>, content: Seq<char>) -> Seq<Seq<char>> {
    if !has_sub(file, ".h"@) {
        Seq::empty()
    } else {
        io_from(file, line_seq(content), 1, false)
    }
}

impl IncludeOrder {
    pub fn new() -> (r: IncludeOrder) {
        IncludeOrder {  }
    }

    pub fn verify(&self, filename: &str, content: &str) -> (r: Vec<String>)
        ensures
            r.deep_view() == io_diags(filename@, content@),
    {
        let fname = str_chars(filename);
        if !contains_sub(&fname, ".h") {
            let r: Vec<String> = Vec::new();
            proof {
                assert(r.deep_view() =~= Seq::<Seq<char>>::empty());
            }
            return r;
        }
        let lines = split_lines(content);
        let ghost l = lines.deep_view();
        let mut r: Vec<String> = Vec::new();
        let mut seen_local: bool = false;
        let mut i: usize = 0;
        proof {
            assert(l.skip(0) =~= l);
            assert(r.deep_view() =~= Seq::<Seq<char>>::empty());
            assert(r.deep_view() + io_from(filename@, l, 1, false) =~= io_from(
                filename@,
                l,
                1,
                false,
            ));
        }
        while i < lines.len()
            invariant
                0 <= i <= lines@.len(),
                l == lines.deep_view(),
                lines@.len() == l.len(),
                has_sub(filename@, ".h"@),
                io_diags(filename@, content@) == r.deep_view() + io_from(
                    filename@,
                    l.skip(i as int),
                    (i + 1) as nat,
                    seen_local,
                ),
            decreases lines@.len() - i,
        {
            let ghost st = seen_local;
            let line = &lines[i];
            proof {
                assert(l.skip(i as int)[0] =~= line@);
                assert(l.skip(i as int).drop_first() =~= l.skip(i + 1));
            }
            let ghost pre = r.deep_view();
            if begins_with(line, "#") && contains_sub(line, "include") {
                if contains_sub(line, "\"") {
                    seen_local = true;
                } else if contains_sub(line, "<") && seen_local {
                    let mut m = diag_prefix(filename, (i + 1) as u128);
                    m.append("System headers must appear before locals one.");
                    push_diag(&mut r, m);
                }
            }
            proof {
                let (fe, st2) = io_step(filename@, line@, (i + 1) as nat, st);
                assert(seen_local == st2);
                assert(r.deep_view() =~= pre + fe);
                let rest = io_from(filename@, l.skip(i + 1), (i + 2) as nat, st2);
                assert((pre + fe) + rest =~= pre + (fe + rest));
            }
            i = i + 1;
        }
        proof {
            assert(l.skip(i as int).len() == 0);
            assert(r.deep_view() + io_from(filename@, l.skip(i as int), (i + 1) as nat, seen_local)
                =~= r.deep_view());
        }
        r
    }
}

impl Rule for IncludeOrder {
    fn verify(&self, filename: &str, content: &str) -> Vec<String> {
        IncludeOrder::verify(self, filename, content)
    }
}

// ---------------------------------------------------------------------------
// HeaderGuard
// ---------------------------------------------------------------------------

/// Flags headers that do not open with their include guard.
pub struct HeaderGuard {}

/// The guard token of a header: its base name, dots as underscores,
/// uppercased, with a trailing underscore.
pub open spec fn guard_of(file: Seq<char>) -> Seq<char> {
    upper_of(dots_to_underscores(after_last(file, '/'))) + "_"@
}

/// The two lines a header must open with.
pub open spec fn guard_first_line(file: Seq<char>) -> Seq<char> {
    "#ifndef "@ + guard_of(file)
}

pub open spec fn guard_second_line(file: Seq<char>) -> Seq<char> {
    "# define "@ + guard_of(file)
}

/// Every diagnostic of the header-guard rule: nothing unless the file is a
/// header; otherwise one diagnostic for each of the two opening lines that is
/// missing or wrong.
pub open spec fn hg_diags(file: Seq<char>, content: Seq<char>) -> Seq<Seq<char>> {
    if !has_sub(file, ".h"@) {
        Seq::empty()
    } else {
        let lines = line_seq(content);
        (if !(lines.len() >= 1 && lines[0] == guard_first_line(file)) {
            seq![
                loc(file, 1) + "'"@ + guard_first_line(file) + "' must appear on the first line."@,
            ]
        } else {
            Seq::empty()
        }) + (if !(lines.len() >= 2 && lines[1] == guard_second_line(file)) {
            seq![
                loc(file, 2) + "'"@ + guard_second_line(file)
                    + "' must appear on the second line."@,
            ]
        } else {
            Seq::empty()
        })
    }
}

impl HeaderGuard {
    pub fn new() -> (r: HeaderGuard) {
        HeaderGuard {  }
    }

    #[verifier::rlimit(50)]
    pub fn verify(&self, filename: &str, content: &str) -> (r: Vec<String>)
        ensures
            r.deep_view() == hg_diags(filename@, content@),
    {
        let fname = str_chars(filename);
        if !contains_sub(&fname, ".h") {
            let r: Vec<String> = Vec::new();
            proof {
                assert(r.deep_view() =~= Seq::<Seq<char>>::empty());
            }
            return r;
        }
        let base = tail_after_last(&fname, '/');
        let mapped = replace_dots(&base);
        let upped = to_upper(&mapped);
        let underscore = str_chars("_");
        let guard = concat_chars(&upped, &underscore);
        let first = concat_chars(&str_chars("#ifndef "), &guard);
        let second = concat_chars(&str_chars("# define "), &guard);
        proof {
            assert(guard@ =~= guard_of(filename@));
            assert(first@ =~= guard_first_line(filename@));
            assert(second@ =~= guard_second_line(filename@));
        }
        let lines = split_lines(content);
        let ghost l = lines.deep_view();
        let mut r: Vec<String> = Vec::new();
        proof {
            assert(r.deep_view() =~= Seq::<Seq<char>>::empty());
        }
        let first_ok = lines.len() >= 1 && chars_equal(&lines[0], &first);
        proof {
            if lines@.len() >= 1 {
                assert(l[0] =~= lines@[0]@);
            }
        }
        let ghost d1 = r.deep_view();
        if !first_ok {
            let mut m = diag_prefix(filename, 1);
            m.append("'");
            let f = chars_to_string(&first);
            m.append(f.as_str());
            m.append("' must appear on the first line.");
            push_diag(&mut r, m);
        }
        let ghost after1 = r.deep_view();
        let second_ok = lines.len() >= 2 && chars_equal(&lines[1], &second);
        proof {
            if lines@.len() >= 2 {
                assert(l[1] =~= lines@[1]@);
            }
        }
        if !second_ok {
            let mut m = diag_prefix(filename, 2);
            m.append("'");
            let s = chars_to_string(&second);
            m.append(s.as_str());
            m.append("' must appear on the second line.");
            push_diag(&mut r, m);
        }
        proof {
            assert(r.deep_view() =~= hg_diags(filename@, content@));
        }
        r
    }
}

impl Rule for HeaderGuard {
    fn verify(&self, filename: &str, content: &str) -> Vec<String> {
        HeaderGuard::verify(self, filename, content)
    }
}

} // verus!
