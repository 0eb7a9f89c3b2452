//! Function-shape rules: body length, argument count, blank lines, the
//! parenthesis position, counts per file, parameter indentation, and where
//! prototypes may stand.

use vstd::prelude::*;
use vstd::string::*;

use crate::Rule;
use crate::text::{
    add_capped, addcap, begins, begins_with, char_count, contains_char, contains_sub, copy_range,
    count_char, decimal, diag_prefix, diag_prefix_file, ends, ends_with, find_char,
    first_char_at, has_char, has_sub, is_space, leading, leading_spaces, line_seq, loc, loc_file,
    push_diag, space, split_lines, str_chars, trim, trim_end, trim_end_ends_with, trim_start,
    trimmed_begins_with,
};

verus! {

// ---------------------------------------------------------------------------
// FunctionMaxCodeLines
// ---------------------------------------------------------------------------

/// Flags function bodies with more code lines than allowed; blank lines and
/// comments do not count.
pub struct FunctionMaxCodeLines {
    pub max_lines: usize,
}

/// The scan state of the body-length rule: the signed brace depth, the code
/// lines counted in the current body, and whether the scan stands in a
/// multi-line comment.
pub ghost struct FmclState {
    pub ind: int,
    pub nb: nat,
    pub inmlc: bool,
}

/// Whether a body line holds no code, and the comment state it leaves behind.
pub open spec fn code_free(line: Seq<char>, blank: bool, inmlc: bool) -> (bool, bool) {
    let d0 = blank || begins(trim_start(line), "//"@) || inmlc;
    let withopen = has_sub(line, "/*"@);
    let inmlc1 = if withopen {
        true
    } else {
        inmlc
    };
    let d1 = if withopen {
        begins(trim_start(line), "/*"@)
    } else {
        d0
    };
    if has_sub(line, "*/"@) && d1 {
        (ends(trim_end(line), "*/"@), false)
    } else {
        (d1, inmlc1)
    }
}

/// One step of the body-length scan.
pub open spec fn fmcl_step(file: Seq<char>, line: Seq<char>, ln: nat, st: FmclState, max: nat) -> (
    Seq<Seq<char>>,
    FmclState,
) {
    let closingb = has_char(line, '}');
    let ind1 = if closingb {
        st.ind - 1
    } else {
        st.ind
    };
    let d: Seq<Seq<char>> = if closingb && ind1 == 0 && st.nb > max {
        seq![
            loc(file, ln) + "Function body's line count excedeed. Expected at most "@ + decimal(
                max,
            ) + " got "@ + decimal(st.nb) + "."@,
        ]
    } else {
        Seq::empty()
    };
    let blank = trim(line).len() == 0;
    let free = code_free(line, blank, st.inmlc);
    let nb1 = if ind1 >= 1 && !free.0 {
        st.nb + 1
    } else {
        st.nb
    };
    let inmlc1 = if ind1 >= 1 {
        free.1
    } else {
        st.inmlc
    };
    let openingb = has_char(line, '{');
    let ind2 = if openingb {
        ind1 + 1
    } else {
        ind1
    };
    let nb2 = if openingb && ind2 <= 1 {
        0
    } else {
        nb1
    };
    (d, FmclState { ind: ind2, nb: nb2, inmlc: inmlc1 })
}

pub open spec fn fmcl_from(
    file: Seq<char>,
    lines: Seq<Seq<char>>,
    ln: nat,
    st: FmclState,
    max: nat,
) -> Seq<Seq<char>>
    decreases lines.len(),
{
    if lines.len() == 0 {
        Seq::empty()
    } else {
        fmcl_step(file, lines[0], ln, st, max).0 + fmcl_from(
            file,
            lines.drop_first(),
            ln + 1,
            fmcl_step(file, lines[0], ln, st, max).1,
            max,
        )
    }
}

/// Every diagnostic of the body-length rule, in line order.
pub open spec fn fmcl_diags(file: Seq<char>, content: Seq<char>, max: nat) -> Seq<Seq<char>> {
    fmcl_from(file, line_seq(content), 1, FmclState { ind: 0, nb: 0, inmlc: false }, max)
}

impl FunctionMaxCodeLines {
    pub fn new(nb_max_lines: usize) -> (r: FunctionMaxCodeLines)
        ensures
            r.max_lines == nb_max_lines,
    {
        FunctionMaxCodeLines { max_lines: nb_max_lines }
    }

    #[verifier::rlimit(50)]
    pub fn verify(&self, filename: &str, content: &str) -> (r: Vec<String>)
        ensures
            r.deep_view() == fmcl_diags(filename@, content@, self.max_lines as nat),
    {
        let lines = split_lines(content);
        let ghost l = lines.deep_view();
        let ghost mx = self.max_lines as nat;
        let mut r: Vec<String> = Vec::new();
        let mut ind: i128 = 0;
        let mut nb: usize = 0;
        let mut inmlc: bool = false;
        let mut i: usize = 0;
        proof {
            assert(l.skip(0) =~= l);
            assert(r.deep_view() =~= Seq::<Seq<char>>::empty());
            assert(r.deep_view() + fmcl_from(
                filename@,
                l,
                1,
                FmclState { ind: 0, nb: 0, inmlc: false },
                mx,
            ) =~= fmcl_from(filename@, l, 1, FmclState { ind: 0, nb: 0, inmlc: false }, mx));
        }
        while i < lines.len()
            invariant
                0 <= i <= lines@.len(),
                -(i as int) <= ind as int <= i as int,
                nb <= i,
                l == lines.deep_view(),
                lines@.len() == l.len(),
                mx == self.max_lines as nat,
                fmcl_diags(filename@, content@, mx) == r.deep_view() + fmcl_from(
                    filename@,
                    l.skip(i as int),
                    (i + 1) as nat,
                    FmclState { ind: ind as int, nb: nb as nat, inmlc: inmlc },
                    mx,
                ),
            decreases lines@.len() - i,
        {
            let ghost st = FmclState { ind: ind as int, nb: nb as nat, inmlc: inmlc };
            let line = &lines[i];
            proof {
                assert(l.skip(i as int)[0] =~= line@);
                assert(l.skip(i as int).drop_first() =~= l.skip(i + 1));
            }
            let ghost pre = r.deep_view();
            if contains_char(line, '}') {
                ind = ind - 1;
                if ind == 0 && nb > self.max_lines {
                    let mut m = diag_prefix(filename, (i + 1) as u128);
                    m.append("Function body's line count excedeed. Expected at most ");
                    crate::text::append_decimal(&mut m, self.max_lines as u128);
                    m.append(" got ");
                    crate::text::append_decimal(&mut m, nb as u128);
                    m.append(".");
                    push_diag(&mut r, m);
                }
            }
            if ind >= 1 {
                let blank = crate::indentation::trim_len(line) == 0;
                let mut dont = blank || trimmed_begins_with(line, "//") || inmlc;
                if contains_sub(line, "/*") {
                    inmlc = true;
                    dont = trimmed_begins_with(line, "/*");
                }
                if contains_sub(line, "*/") && dont {
                    inmlc = false;
                    dont = trim_end_ends_with(line, "*/");
                }
                if !dont {
                    nb = nb + 1;
                }
            }
            if contains_char(line, '{') {
                ind = ind + 1;
                if ind <= 1 {
                    nb = 0;
                }
            }
            proof {
                let (fe, st2) = fmcl_step(filename@, line@, (i + 1) as nat, st, mx);
                assert(FmclState { ind: ind as int, nb: nb as nat, inmlc: inmlc } == st2);
                assert(r.deep_view() =~= pre + fe);
                let rest = fmcl_from(filename@, l.skip(i + 1), (i + 2) as nat, st2, mx);
                assert((pre + fe) + rest =~= pre + (fe + rest));
            }
            i = i + 1;
        }
        proof {
            assert(l.skip(i as int).len() == 0);
            assert(r.deep_view() + fmcl_from(
                filename@,
                l.skip(i as int),
                (i + 1) as nat,
                FmclState { ind: ind as int, nb: nb as nat, inmlc: inmlc },
                mx,
            ) =~= r.deep_view());
        }
        r
    }
}

impl Rule for FunctionMaxCodeLines {
    fn verify(&self, filename: &str, content: &str) -> Vec<String> {
        FunctionMaxCodeLines::verify(self, filename, content)
    }
}

// ---------------------------------------------------------------------------
// FunctionMaxArguments
// ---------------------------------------------------------------------------

/// Flags function signatures with more arguments than allowed.
pub struct FunctionMaxArguments {
    pub max_nb_arguments: usize,
}

/// The scan state of the argument-count rule: the brace depth, whether the
/// scan stands in an argument list, and the arguments counted so far.
pub ghost struct FmaState {
    pub ind: nat,
    pub inargs: bool,
    pub nb: nat,
}

/// One step of the argument-count scan. A top-level parenthesis opens an
/// argument list; commas are counted until the closing parenthesis, where one
/// comma short of the argument count is added back.
pub open spec fn fma_step(file: Seq<char>, line: Seq<char>, ln: nat, st: FmaState, max: nat) -> (
    Seq<Seq<char>>,
    FmaState,
) {
    let ind1 = if has_char(line, '{') {
        st.ind + 1
    } else {
        st.ind
    };
    let ind2: nat = if has_char(line, '}') && ind1 > 0 {
        (ind1 - 1) as nat
    } else {
        ind1
    };
    let starts = ind2 == 0 && has_char(line, '(');
    let work0 = if starts {
        line.skip(first_char_at(line, '(') + 1)
    } else {
        line
    };
    let inargs1 = starts || st.inargs;
    let nb1: nat = if starts {
        0
    } else {
        st.nb
    };
    if inargs1 {
        if has_char(work0, ')') {
            let work = work0.take(first_char_at(work0, ')'));
            let nb2 = addcap(nb1, addcap(char_count(work, ','), 1));
            let d: Seq<Seq<char>> = if nb2 > max {
                seq![
                    loc(file, ln) + "Too many function arguments. Expected at most "@ + decimal(
                        max,
                    ) + " got "@ + decimal(nb2) + "."@,
                ]
            } else {
                Seq::empty()
            };
            (d, FmaState { ind: ind2, inargs: false, nb: nb2 })
        } else {
            (
                Seq::empty(),
                FmaState { ind: ind2, inargs: true, nb: addcap(nb1, char_count(work0, ',')) },
            )
        }
    } else {
        (Seq::empty(), FmaState { ind: ind2, inargs: inargs1, nb: nb1 })
    }
}

pub open spec fn fma_from(
    file: Seq<char>,
    lines: Seq<Seq<char>>,
    ln: nat,
    st: FmaState,
    max: nat,
) -> Seq<Seq<char>>
    decreases lines.len(),
{
    if lines.len() == 0 {
        Seq::empty()
    } else {
        fma_step(file, lines[0], ln, st, max).0 + fma_from(
            file,
            lines.drop_first(),
            ln + 1,
            fma_step(file, lines[0], ln, st, max).1,
            max,
        )
    }
}

/// Every diagnostic of the argument-count rule, in line order.
pub open spec fn fma_diags(file: Seq<char>, content: Seq<char>, max: nat) -> Seq<Seq<char>> {
    fma_from(file, line_seq(content), 1, FmaState { ind: 0, inargs: false, nb: 0 }, max)
}

impl FunctionMaxArguments {
    pub fn new(nb_max_arguments: usize) -> (r: FunctionMaxArguments)
        ensures
            r.max_nb_arguments == nb_max_arguments,
    {
        FunctionMaxArguments { max_nb_arguments: nb_max_arguments }
    }

    #[verifier::rlimit(50)]
    pub fn verify(&self, filename: &str, content: &str) -> (r: Vec<String>)
        ensures
            r.deep_view() == fma_diags(filename@, content@, self.max_nb_arguments as nat),
    {
        let lines = split_lines(content);
        let ghost l = lines.deep_view();
        let ghost mx = self.max_nb_arguments as nat;
        let mut r: Vec<String> = Vec::new();
        let mut ind: usize = 0;
        let mut inargs: bool = false;
        let mut nb: u128 = 0;
        let mut i: usize = 0;
        proof {
            assert(l.skip(0) =~= l);
            assert(r.deep_view() =~= Seq::<Seq<char>>::empty());
            assert(r.deep_view() + fma_from(
                filename@,
                l,
                1,
                FmaState { ind: 0, inargs: false, nb: 0 },
                mx,
            ) =~= fma_from(filename@, l, 1, FmaState { ind: 0, inargs: false, nb: 0 }, mx));
        }
        while i < lines.len()
            invariant
                0 <= i <= lines@.len(),
                ind <= i,
                l == lines.deep_view(),
                lines@.len() == l.len(),
                mx == self.max_nb_arguments as nat,
                fma_diags(filename@, content@, mx) == r.deep_view() + fma_from(
                    filename@,
                    l.skip(i as int),
                    (i + 1) as nat,
                    FmaState { ind: ind as nat, inargs: inargs, nb: nb as nat },
                    mx,
                ),
            decreases lines@.len() - i,
        {
            let ghost st = FmaState { ind: ind as nat, inargs: inargs, nb: nb as nat };
            let line = &lines[i];
            proof {
                assert(l.skip(i as int)[0] =~= line@);
                assert(l.skip(i as int).drop_first() =~= l.skip(i + 1));
            }
            let ghost pre = r.deep_view();
            if contains_char(line, '{') {
                ind = ind + 1;
            }
            if contains_char(line, '}') && ind > 0 {
                ind = ind - 1;
            }
            let llen = line.len();
            let starts = ind == 0 && contains_char(line, '(');
            let work0: Vec<char> = if starts {
                inargs = true;
                nb = 0;
                let p = find_char(line, '(');
                copy_range(line, p + 1, llen)
            } else {
                copy_range(line, 0, llen)
            };
            proof {
                if starts {
                    assert(work0@ =~= line@.skip(first_char_at(line@, '(') + 1));
                } else {
                    assert(work0@ =~= line@);
                }
            }
            if inargs {
                if contains_char(&work0, ')') {
                    let q = find_char(&work0, ')');
                    let work = copy_range(&work0, 0, q);
                    proof {
                        assert(work@ =~= work0@.take(first_char_at(work0@, ')')));
                    }
                    let commas = count_char(&work, ',');
                    nb = add_capped(nb, add_capped(commas as u128, 1));
                    inargs = false;
                    if nb > self.max_nb_arguments as u128 {
                        let mut m = diag_prefix(filename, (i + 1) as u128);
                        m.append("Too many function arguments. Expected at most ");
                        crate::text::append_decimal(&mut m, self.max_nb_arguments as u128);
                        m.append(" got ");
                        crate::text::append_decimal(&mut m, nb);
                        m.append(".");
                        push_diag(&mut r, m);
                    }
                } else {
                    let commas = count_char(&work0, ',');
                    nb = add_capped(nb, commas as u128);
                }
            }
            proof {
                let (fe, st2) = fma_step(filename@, line@, (i + 1) as nat, st, mx);
                assert(FmaState { ind: ind as nat, inargs: inargs, nb: nb as nat } == st2);
                assert(r.deep_view() =~= pre + fe);
                let rest = fma_from(filename@, l.skip(i + 1), (i + 2) as nat, st2, mx);
                assert((pre + fe) + rest =~= pre + (fe + rest));
            }
            i = i + 1;
        }
        proof {
            assert(l.skip(i as int).len() == 0);
            assert(r.deep_view() + fma_from(
                filename@,
                l.skip(i as int),
                (i + 1) as nat,
                FmaState { ind: ind as nat, inargs: inargs, nb: nb as nat },
                mx,
            ) =~= r.deep_view());
        }
        r
    }
}

impl Rule for FunctionMaxArguments {
    fn verify(&self, filename: &str, content: &str) -> Vec<String> {
        FunctionMaxArguments::verify(self, filename, content)
    }
}

// ---------------------------------------------------------------------------
// FunctionBlankLines
// ---------------------------------------------------------------------------

/// Flags two blank lines in a row inside a function body.
pub struct FunctionBlankLines {}

/// The scan state of the blank-lines rule.
pub ghost struct FblState {
    pub ind: nat,
    pub prev: bool,
    pub inmlc: bool,
}

/// One step of the blank-lines scan.
pub open spec fn fbl_step(file: Seq<char>, line: Seq<char>, ln: nat, st: FblState) -> (Seq<
    Seq<char>,
>, FblState) {
    let ind1 = if has_char(line, '{') {
        st.ind + 1
    } else {
        st.ind
    };
    let ind2: nat = if has_char(line, '}') && ind1 > 0 {
        (ind1 - 1) as nat
    } else {
        ind1
    };
    if ind2 > 0 {
        if trim(line).len() == 0 && !st.inmlc {
            let d: Seq<Seq<char>> = if st.prev {
                seq![loc(file, ln) + "Two following blank line found."@]
            } else {
                Seq::empty()
            };
            (d, FblState { ind: ind2, prev: true, inmlc: st.inmlc })
        } else {
            let free = code_free(line, false, st.inmlc);
            (Seq::empty(), FblState { ind: ind2, prev: free.0 && st.prev, inmlc: free.1 })
        }
    } else {
        (Seq::empty(), FblState { ind: ind2, prev: st.prev, inmlc: st.inmlc })
    }
}

pub open spec fn fbl_from(file: Seq<char>, lines: Seq<Seq<char>>, ln: nat, st: FblState) -> Seq<
    Seq<char>,
>
    decreases lines.len(),
{
    if lines.len() == 0 {
        Seq::empty()
    } else {
        fbl_step(file, lines[0], ln, st).0 + fbl_from(
            file,
            lines.drop_first(),
            ln + 1,
            fbl_step(file, lines[0], ln, st).1,
        )
    }
}

/// Every diagnostic of the blank-lines rule, in line order.
pub open spec fn fbl_diags(file: Seq<char>, content: Seq<char>) -> Seq<Seq<char>> {
    fbl_from(file, line_seq(content), 1, FblState { ind: 0, prev: false, inmlc: false })
}

impl FunctionBlankLines {
    pub fn new() -> (r: FunctionBlankLines) {
        FunctionBlankLines {  }
    }

    #[verifier::rlimit(50)]
    pub fn verify(&self, filename: &str, content: &str) -> (r: Vec<String>)
        ensures
            r.deep_view() == fbl_diags(filename@, content@),
    {
        let lines = split_lines(content);
        let ghost l = lines.deep_view();
        let mut r: Vec<String> = Vec::new();
        let mut ind: usize = 0;
        let mut prev: bool = false;
        let mut inmlc: bool = false;
        let mut i: usize = 0;
        proof {
            assert(l.skip(0) =~= l);
            assert(r.deep_view() =~= Seq::<Seq<char>>::empty());
            assert(r.deep_view() + fbl_from(
                filename@,
                l,
                1,
                FblState { ind: 0, prev: false, inmlc: false },
            ) =~= fbl_from(filename@, l, 1, FblState { ind: 0, prev: false, inmlc: false }));
        }
        while i < lines.len()
            invariant
                0 <= i <= lines@.len(),
                ind <= i,
                l == lines.deep_view(),
                lines@.len() == l.len(),
                fbl_diags(filename@, content@) == r.deep_view() + fbl_from(
                    filename@,
                    l.skip(i as int),
                    (i + 1) as nat,
                    FblState { ind: ind as nat, prev: prev, inmlc: inmlc },
                ),
            decreases lines@.len() - i,
        {
            let ghost st = FblState { ind: ind as nat, prev: prev, inmlc: inmlc };
            let line = &lines[i];
            proof {
                assert(l.skip(i as int)[0] =~= line@);
                assert(l.skip(i as int).drop_first() =~= l.skip(i + 1));
            }
            let ghost pre = r.deep_view();
            if contains_char(line, '{') {
                ind = ind + 1;
            }
            if contains_char(line, '}') && ind > 0 {
                ind = ind - 1;
            }
            if ind > 0 {
                if crate::indentation::trim_len(line) == 0 && !inmlc {
                    if prev {
                        let mut m = diag_prefix(filename, (i + 1) as u128);
                        m.append("Two following blank line found.");
                        push_diag(&mut r, m);
                    }
                    prev = true;
                } else {
                    let mut dont = trimmed_begins_with(line, "//") || inmlc;
                    if contains_sub(line, "/*") {
                        inmlc = true;
                        dont = trimmed_begins_with(line, "/*");
                    }
                    if contains_sub(line, "*/") && dont {
                        inmlc = false;
                        dont = trim_end_ends_with(line, "*/");
                    }
                    prev = dont && prev;
                }
            }
            proof {
                let (fe, st2) = fbl_step(filename@, line@, (i + 1) as nat, st);
                assert(FblState { ind: ind as nat, prev: prev, inmlc: inmlc } == st2);
                assert(r.deep_view() =~= pre + fe);
                let rest = fbl_from(filename@, l.skip(i + 1), (i + 2) as nat, st2);
                assert((pre + fe) + rest =~= pre + (fe + rest));
            }
            i = i + 1;
        }
        proof {
            assert(l.skip(i as int).len() == 0);
            assert(r.deep_view() + fbl_from(
                filename@,
                l.skip(i as int),
                (i + 1) as nat,
                FblState { ind: ind as nat, prev: prev, inmlc: inmlc },
            ) =~= r.deep_view());
        }
        r
    }
}

impl Rule for FunctionBlankLines {
    fn verify(&self, filename: &str, content: &str) -> Vec<String> {
        FunctionBlankLines::verify(self, filename, content)
    }
}

// ---------------------------------------------------------------------------
// FunctionStartParenthesis
// ---------------------------------------------------------------------------

/// Flags a space between a top-level function name and its parenthesis.
pub struct FunctionStartParenthesis {}

/// One step of the parenthesis-position scan.
pub open spec fn fsp_step(file: Seq<char>, line: Seq<char>, ln: nat, ind: nat) -> (Seq<Seq<char>>, nat) {
    let ind1 = if has_char(line, '{') {
        ind + 1
    } else {
        ind
    };
    let ind2: nat = if has_char(line, '}') && ind1 > 0 {
        (ind1 - 1) as nat
    } else {
        ind1
    };
    let p = first_char_at(line, '(');
    let d: Seq<Seq<char>> = if ind2 == 0 && 0 < p < line.len() && is_space(line[p - 1]) {
        seq![loc(file, ln) + "Function parenthesis must be next to function name."@]
    } else {
        Seq::empty()
    };
    (d, ind2)
}

pub open spec fn fsp_from(file: Seq<char>, lines: Seq<Seq<char>>, ln: nat, ind: nat) -> Seq<
    Seq<char>,
>
    decreases lines.len(),
{
    if lines.len() == 0 {
        Seq::empty()
    } else {
        fsp_step(file, lines[0], ln, ind).0 + fsp_from(
            file,
            lines.drop_first(),
            ln + 1,
            fsp_step(file, lines[0], ln, ind).1,
        )
    }
}

/// Every diagnostic of the parenthesis-position rule, in line order.
pub open spec fn fsp_diags(file: Seq<char>, content: Seq<char>) -> Seq<Seq<char>> {
    fsp_from(file, line_seq(content), 1, 0)
}

impl FunctionStartParenthesis {
    pub fn new() -> (r: FunctionStartParenthesis) {
        FunctionStartParenthesis {  }
    }

    pub fn verify(&self, filename: &str, content: &str) -> (r: Vec<String>)
        ensures
            r.deep_view() == fsp_diags(filename@, content@),
    {
        let lines = split_lines(content);
        let ghost l = lines.deep_view();
        let mut r: Vec<String> = Vec::new();
        let mut ind: usize = 0;
        let mut i: usize = 0;
        proof {
            assert(l.skip(0) =~= l);
            assert(r.deep_view() =~= Seq::<Seq<char>>::empty());
            assert(r.deep_view() + fsp_from(filename@, l, 1, 0) =~= fsp_from(filename@, l, 1, 0));
        }
        while i < lines.len()
            invariant
                0 <= i <= lines@.len(),
                ind <= i,
                l == lines.deep_view(),
                lines@.len() == l.len(),
                fsp_diags(filename@, content@) == r.deep_view() + fsp_from(
                    filename@,
                    l.skip(i as int),
                    (i + 1) as nat,
                    ind as nat,
                ),
            decreases lines@.len() - i,
        {
            let ghost st: nat = ind as nat;
            let line = &lines[i];
            proof {
                assert(l.skip(i as int)[0] =~= line@);
                assert(l.skip(i as int).drop_first() =~= l.skip(i + 1));
            }
            let ghost pre = r.deep_view();
            if contains_char(line, '{') {
                ind = ind + 1;
            }
            if contains_char(line, '}') && ind > 0 {
                ind = ind - 1;
            }
            if ind == 0 {
                let p = find_char(line, '(');
                if p < line.len() && p > 0 && space(line[p - 1]) {
                    let mut m = diag_prefix(filename, (i + 1) as u128);
                    m.append("Function parenthesis must be next to function name.");
                    push_diag(&mut r, m);
                }
            }
            proof {
                let (fe, st2) = fsp_step(filename@, line@, (i + 1) as nat, st);
                assert(ind as nat == st2);
                assert(r.deep_view() =~= pre + fe);
                let rest = fsp_from(filename@, l.skip(i + 1), (i + 2) as nat, st2);
                assert((pre + fe) + rest =~= pre + (fe + rest));
            }
            i = i + 1;
        }
        proof {
            assert(l.skip(i as int).len() == 0);
            assert(r.deep_view() + fsp_from(filename@, l.skip(i as int), (i + 1) as nat, ind as nat)
                =~= r.deep_view());
        }
        r
    }
}

impl Rule for FunctionStartParenthesis {
    fn verify(&self, filename: &str, content: &str) -> Vec<String> {
        FunctionStartParenthesis::verify(self, filename, content)
    }
}

// ---------------------------------------------------------------------------
// MaxFunctionsPerSourceFile
// ---------------------------------------------------------------------------

/// Flags a `.c` file that defines more functions than allowed, counting lines
/// that start with an opening brace.
pub struct MaxFunctionsPerSourceFile {
    pub max_functions: usize,
}

pub open spec fn opening_line_count(lines: Seq<Seq<char>>) -> nat
    decreases lines.len(),
{
    if lines.len() == 0 {
        0
    } else {
        (if begins(lines[0], "{"@) {
            1 as nat
        } else {
            0 as nat
        }) + opening_line_count(lines.drop_first())
    }
}

/// The diagnostics of the functions-per-file rule: nothing unless the file is
/// a `.c` file with too many bodies.
pub open spec fn mfpsf_diags(file: Seq<char>, content: Seq<char>, max: nat) -> Seq<Seq<char>> {
    if !has_sub(file, ".c"@) {
        Seq::empty()
    } else if opening_line_count(line_seq(content)) > max {
        seq![
            loc_file(file) + "Too much functions found. Expected at most "@ + decimal(max)
                + " functions, got "@ + decimal(opening_line_count(line_seq(content))) + "."@,
        ]
    } else {
        Seq::empty()
    }
}

impl MaxFunctionsPerSourceFile {
    pub fn new(max_functions_per_source_file: usize) -> (r: MaxFunctionsPerSourceFile)
        ensures
            r.max_functions == max_functions_per_source_file,
    {
        MaxFunctionsPerSourceFile { max_functions: max_functions_per_source_file }
    }

    pub fn verify(&self, filename: &str, content: &str) -> (r: Vec<String>)
        ensures
            r.deep_view() == mfpsf_diags(filename@, content@, self.max_functions as nat),
    {
        let fname = str_chars(filename);
        if !contains_sub(&fname, ".c") {
            let r: Vec<String> = Vec::new();
            proof {
                assert(r.deep_view() =~= Seq::<Seq<char>>::empty());
            }
            return r;
        }
        let lines = split_lines(content);
        let ghost l = lines.deep_view();
        let mut n: usize = 0;
        let mut i: usize = 0;
        proof {
            assert(l.skip(0) =~= l);
        }
        while i < lines.len()
            invariant
                0 <= i <= lines@.len(),
                n <= i,
                l == lines.deep_view(),
                lines@.len() == l.len(),
                opening_line_count(l) == n + opening_line_count(l.skip(i as int)),
            decreases lines@.len() - i,
        {
            let line = &lines[i];
            proof {
                assert(l.skip(i as int)[0] =~= line@);
                assert(l.skip(i as int).drop_first() =~= l.skip(i + 1));
            }
            if begins_with(line, "{") {
                n = n + 1;
            }
            i = i + 1;
        }
        proof {
            assert(l.skip(i as int).len() == 0);
        }
        let mut r: Vec<String> = Vec::new();
        proof {
            assert(r.deep_view() =~= Seq::<Seq<char>>::empty());
        }
        if n > self.max_functions {
            let mut m = diag_prefix_file(filename);
            m.append("Too much functions found. Expected at most ");
            crate::text::append_decimal(&mut m, self.max_functions as u128);
            m.append(" functions, got ");
            crate::text::append_decimal(&mut m, n as u128);
            m.append(".");
            push_diag(&mut r, m);
            proof {
                assert(r.deep_view() =~= mfpsf_diags(
                    filename@,
                    content@,
                    self.max_functions as nat,
                ));
            }
        }
        r
    }
}

impl Rule for MaxFunctionsPerSourceFile {
    fn verify(&self, filename: &str, content: &str) -> Vec<String> {
        MaxFunctionsPerSourceFile::verify(self, filename, content)
    }
}

// ---------------------------------------------------------------------------
// MaxExportedFunctions
// ---------------------------------------------------------------------------

/// Flags a header that exports more functions than allowed, counting
/// parenthesised lines outside the preprocessor.
pub struct MaxExportedFunctions {
    pub max_functions: usize,
}

pub open spec fn exported_line(line: Seq<char>) -> bool {
    has_sub(line, "("@) && !begins(line, "#"@) && !ends(line, "\\"@)
}

pub open spec fn exported_count(lines: Seq<Seq<char>>) -> nat
    decreases lines.len(),
{
    if lines.len() == 0 {
        0
    } else {
        (if exported_line(lines[0]) {
            1 as nat
        } else {
            0 as nat
        }) + exported_count(lines.drop_first())
    }
}

/// The diagnostics of the exported-functions rule: nothing unless the file is
/// a header with too many exports.
pub open spec fn mef_diags(file: Seq<char>, content: Seq<char>, max: nat) -> Seq<Seq<char>> {
    if !has_sub(file, ".h"@) {
        Seq::empty()
    } else if exported_count(line_seq(content)) > max {
        seq![
            loc_file(file) + "Too much exported functions found. Expected at most "@ + decimal(max)
                + " functions, got "@ + decimal(exported_count(line_seq(content))) + "."@,
        ]
    } else {
        Seq::empty()
    }
}

impl MaxExportedFunctions {
    pub fn new(max_exported_functions: usize) -> (r: MaxExportedFunctions)
        ensures
            r.max_functions == max_exported_functions,
    {
        MaxExportedFunctions { max_functions: max_exported_functions }
    }

    pub fn verify(&self, filename: &str, content: &str) -> (r: Vec<String>)
        ensures
            r.deep_view() == mef_diags(filename@, content@, self.max_functions as nat),
    {
        let fname = str_chars(filename);
        if !contains_sub(&fname, ".h") {
            let r: Vec<String> = Vec::new();
            proof {
                assert(r.deep_view() =~= Seq::<Seq<char>>::empty());
            }
            return r;
        }
        let lines = split_lines(content);
        let ghost l = lines.deep_view();
        let mut n: usize = 0;
        let mut i: usize = 0;
        proof {
            assert(l.skip(0) =~= l);
        }
        while i < lines.len()
            invariant
                0 <= i <= lines@.len(),
                n <= i,
                l == lines.deep_view(),
                lines@.len() == l.len(),
                exported_count(l) == n + exported_count(l.skip(i as int)),
            decreases lines@.len() - i,
        {
            let line = &lines[i];
            proof {
                assert(l.skip(i as int)[0] =~= line@);
                assert(l.skip(i as int).drop_first() =~= l.skip(i + 1));
            }
            if contains_sub(line, "(") && !begins_with(line, "#") && !ends_with(line, "\\") {
                n = n + 1;
            }
            i = i + 1;
        }
        proof {
            assert(l.skip(i as int).len() == 0);
        }
        let mut r: Vec<String> = Vec::new();
        proof {
            assert(r.deep_view() =~= Seq::<Seq<char>>::empty());
        }
        if n > self.max_functions {
            let mut m = diag_prefix_file(filename);
            m.append("Too much exported functions found. Expected at most ");
            crate::text::append_decimal(&mut m, self.max_functions as u128);
            m.append(" functions, got ");
            crate::text::append_decimal(&mut m, n as u128);
            m.append(".");
            push_diag(&mut r, m);
            proof {
                assert(r.deep_view() =~= mef_diags(filename@, content@, self.max_functions as nat));
            }
        }
        r
    }
}

impl Rule for MaxExportedFunctions {
    fn verify(&self, filename: &str, content: &str) -> Vec<String> {
        MaxExportedFunctions::verify(self, filename, content)
    }
}

// ---------------------------------------------------------------------------
// FunctionParametersIndentation
// ---------------------------------------------------------------------------

/// Flags continuation lines of a parameter list that do not line up one
/// column past the opening parenthesis.
pub struct FunctionParametersIndentation {}

/// The scan state of the parameter-indentation rule.
pub ghost struct FpiState {
    pub ind: nat,
    pub infp: bool,
    pub pind: nat,
}

/// One step of the parameter-indentation scan.
pub open spec fn fpi_step(file: Seq<char>, line: Seq<char>, ln: nat, st: FpiState) -> (Seq<
    Seq<char>,
>, FpiState) {
    let ind1 = if has_char(line, '{') {
        st.ind + 1
    } else {
        st.ind
    };
    let ind2: nat = if has_char(line, '}') && ind1 > 0 {
        (ind1 - 1) as nat
    } else {
        ind1
    };
    let opens = ind2 == 0 && has_char(line, '(');
    let infp1 = if opens {
        true
    } else {
        st.infp
    };
    let pind1: nat = if opens {
        (first_char_at(line, '(') + 1) as nat
    } else {
        st.pind
    };
    let d: Seq<Seq<char>> = if ind2 == 0 && !opens && st.infp && leading_spaces(line) != st.pind {
        seq![
            loc(file, ln) + "Wrong parameters indentation level. Expected "@ + decimal(st.pind)
                + " functions, got "@ + decimal(leading_spaces(line)) + "."@,
        ]
    } else {
        Seq::empty()
    };
    let infp2 = if infp1 && has_char(line, ')') {
        false
    } else {
        infp1
    };
    (d, FpiState { ind: ind2, infp: infp2, pind: pind1 })
}

pub open spec fn fpi_from(file: Seq<char>, lines: Seq<Seq<char>>, ln: nat, st: FpiState) -> Seq<
    Seq<char>,
>
    decreases lines.len(),
{
    if lines.len() == 0 {
        Seq::empty()
    } else {
        fpi_step(file, lines[0], ln, st).0 + fpi_from(
            file,
            lines.drop_first(),
            ln + 1,
            fpi_step(file, lines[0], ln, st).1,
        )
    }
}

/// Every diagnostic of the parameter-indentation rule, in line order.
pub open spec fn fpi_diags(file: Seq<char>, content: Seq<char>) -> Seq<Seq<char>> {
    fpi_from(file, line_seq(content), 1, FpiState { ind: 0, infp: false, pind: 0 })
}

impl FunctionParametersIndentation {
    pub fn new() -> (r: FunctionParametersIndentation) {
        FunctionParametersIndentation {  }
    }

    #[verifier::rlimit(50)]
    pub fn verify(&self, filename: &str, content: &str) -> (r: Vec<String>)
        ensures
            r.deep_view() == fpi_diags(filename@, content@),
    {
        let lines = split_lines(content);
        let ghost l = lines.deep_view();
        let mut r: Vec<String> = Vec::new();
        let mut ind: usize = 0;
        let mut infp: bool = false;
        let mut pind: usize = 0;
        let mut i: usize = 0;
        proof {
            assert(l.skip(0) =~= l);
            assert(r.deep_view() =~= Seq::<Seq<char>>::empty());
            assert(r.deep_view() + fpi_from(
                filename@,
                l,
                1,
                FpiState { ind: 0, infp: false, pind: 0 },
            ) =~= fpi_from(filename@, l, 1, FpiState { ind: 0, infp: false, pind: 0 }));
        }
        while i < lines.len()
            invariant
                0 <= i <= lines@.len(),
                ind <= i,
                l == lines.deep_view(),
                lines@.len() == l.len(),
                fpi_diags(filename@, content@) == r.deep_view() + fpi_from(
                    filename@,
                    l.skip(i as int),
                    (i + 1) as nat,
                    FpiState { ind: ind as nat, infp: infp, pind: pind as nat },
                ),
            decreases lines@.len() - i,
        {
            let ghost st = FpiState { ind: ind as nat, infp: infp, pind: pind as nat };
            let line = &lines[i];
            proof {
                assert(l.skip(i as int)[0] =~= line@);
                assert(l.skip(i as int).drop_first() =~= l.skip(i + 1));
            }
            let ghost pre = r.deep_view();
            if contains_char(line, '{') {
                ind = ind + 1;
            }
            if contains_char(line, '}') && ind > 0 {
                ind = ind - 1;
            }
            if ind == 0 {
                if contains_char(line, '(') {
                    let llen = line.len();
                    infp = true;
                    let p = find_char(line, '(');
                    assert(p < llen);
                    pind = p + 1;
                } else if infp {
                    let cur = leading(line);
                    if cur != pind {
                        let mut m = diag_prefix(filename, (i + 1) as u128);
                        m.append("Wrong parameters indentation level. Expected ");
                        crate::text::append_decimal(&mut m, pind as u128);
                        m.append(" functions, got ");
                        crate::text::append_decimal(&mut m, cur as u128);
                        m.append(".");
                        push_diag(&mut r, m);
                    }
                }
            }
            if infp && contains_char(line, ')') {
                infp = false;
            }
            proof {
                let (fe, st2) = fpi_step(filename@, line@, (i + 1) as nat, st);
                assert(FpiState { ind: ind as nat, infp: infp, pind: pind as nat } == st2);
                assert(r.deep_view() =~= pre + fe);
                let rest = fpi_from(filename@, l.skip(i + 1), (i + 2) as nat, st2);
                assert((pre + fe) + rest =~= pre + (fe + rest));
            }
            i = i + 1;
        }
        proof {
            assert(l.skip(i as int).len() == 0);
            assert(r.deep_view() + fpi_from(
                filename@,
                l.skip(i as int),
                (i + 1) as nat,
                FpiState { ind: ind as nat, infp: infp, pind: pind as nat },
            ) =~= r.deep_view());
        }
        r
    }
}

impl Rule for FunctionParametersIndentation {
    fn verify(&self, filename: &str, content: &str) -> Vec<String> {
        FunctionParametersIndentation::verify(self, filename, content)
    }
}

// ---------------------------------------------------------------------------
// FunctionsPrototypeLocation
// ---------------------------------------------------------------------------

/// Flags function prototypes in a `.c` file: they belong in a header.
pub struct FunctionsPrototypeLocation {}

/// One step of the prototype-location scan.
pub open spec fn fpl_step(file: Seq<char>, line: Seq<char>, ln: nat, ind: nat) -> (Seq<Seq<char>>, nat) {
    let ind1 = if has_char(line, '{') {
        ind + 1
    } else {
        ind
    };
    let ind2: nat = if has_char(line, '}') && ind1 > 0 {
        (ind1 - 1) as nat
    } else {
        ind1
    };
    let d: Seq<Seq<char>> = if ind2 == 0 && has_char(line, ')') && has_char(line, ';') {
        seq![loc(file, ln) + "Functions prototype must be located in header file."@]
    } else {
        Seq::empty()
    };
    (d, ind2)
}

pub open spec fn fpl_from(file: Seq<char>, lines: Seq<Seq<char>>, ln: nat, ind: nat) -> Seq<
    Seq<char>,
>
    decreases lines.len(),
{
    if lines.len() == 0 {
        Seq::empty()
    } else {
        fpl_step(file, lines[0], ln, ind).0 + fpl_from(
            file,
            lines.drop_first(),
            ln + 1,
            fpl_step(file, lines[0], ln, ind).1,
        )
    }
}

/// Every diagnostic of the prototype-location rule: nothing unless the file
/// is a `.c` file.
pub open spec fn fpl_diags(file: Seq<char>, content: Seq<char>) -> Seq<Seq<char>> {
    if !has_sub(file, ".c"@) {
        Seq::empty()
    } else {
        fpl_from(file, line_seq(content), 1, 0)
    }
}

impl FunctionsPrototypeLocation {
    pub fn new() -> (r: FunctionsPrototypeLocation) {
        FunctionsPrototypeLocation {  }
    }

    pub fn verify(&self, filename: &str, content: &str) -> (r: Vec<String>)
        ensures
            r.deep_view() == fpl_diags(filename@, content@),
    {
        let fname = str_chars(filename);
        if !contains_sub(&fname, ".c") {
            let r: Vec<String> = Vec::new();
            proof {
                assert(r.deep_view() =~= Seq::<Seq<char>>::empty());
            }
            return r;
        }
        let lines = split_lines(content);
        let ghost l = lines.deep_view();
        let mut r: Vec<String> = Vec::new();
        let mut ind: usize = 0;
        let mut i: usize = 0;
        proof {
            assert(l.skip(0) =~= l);
            assert(r.deep_view() =~= Seq::<Seq<char>>::empty());
            assert(r.deep_view() + fpl_from(filename@, l, 1, 0) =~= fpl_from(filename@, l, 1, 0));
        }
        while i < lines.len()
            invariant
                0 <= i <= lines@.len(),
                ind <= i,
                l == lines.deep_view(),
                lines@.len() == l.len(),
                has_sub(filename@, ".c"@),
                fpl_diags(filename@, content@) == r.deep_view() + fpl_from(
                    filename@,
                    l.skip(i as int),
                    (i + 1) as nat,
                    ind as nat,
                ),
            decreases lines@.len() - i,
        {
            let ghost st: nat = ind as nat;
            let line = &lines[i];
            proof {
                assert(l.skip(i as int)[0] =~= line@);
                assert(l.skip(i as int).drop_first() =~= l.skip(i + 1));
            }
            let ghost pre = r.deep_view();
            if contains_char(line, '{') {
                ind = ind + 1;
            }
            if contains_char(line, '}') && ind > 0 {
                ind = ind - 1;
            }
            if ind == 0 && contains_char(line, ')') && contains_char(line, ';') {
                let mut m = diag_prefix(filename, (i + 1) as u128);
                m.append("Functions prototype must be located in header file.");
                push_diag(&mut r, m);
            }
            proof {
                let (fe, st2) = fpl_step(filename@, line@, (i + 1) as nat, st);
                assert(ind as nat == st2);
                assert(r.deep_view() =~= pre + fe);
                let rest = fpl_from(filename@, l.skip(i + 1), (i + 2) as nat, st2);
                assert((pre + fe) + rest =~= pre + (fe + rest));
            }
            i = i + 1;
        }
        proof {
            assert(l.skip(i as int).len() == 0);
            assert(r.deep_view() + fpl_from(filename@, l.skip(i as int), (i + 1) as nat, ind as nat)
                =~= r.deep_view());
        }
        r
    }
}

impl Rule for FunctionsPrototypeLocation {
    fn verify(&self, filename: &str, content: &str) -> Vec<String> {
        FunctionsPrototypeLocation::verify(self, filename, content)
    }
}

} // verus!
