//! Whitespace-oriented rules: line length, tab use, trailing whitespace, and
//! the spacing around semicolons and commas.

use vstd::prelude::*;
use vstd::string::*;

use crate::Rule;
use crate::text::{
    char_count, contains_char, contains_sub, copy_range, count_char, diag_prefix, find_char,
    first_char_at, has_char, has_sub, is_space, leading, leading_spaces, lemma_char_count_pos,
    line_seq, loc, parts, push_diag, space, split_lines, split_on, trailing, trailing_spaces,
    trim, trim_end, trim_start,
};

verus! {

// ---------------------------------------------------------------------------
// LineSize
// ---------------------------------------------------------------------------

/// Flags every line at least `max` characters long.
pub struct LineSize {
    pub max: usize,
}

/// Diagnostics the line-size rule emits for one line.
pub open spec fn line_size_line(file: Seq<char>, line: Seq<char>, ln: nat, max: nat) -> Seq<
    Seq<char>,
> {
    if line.len() >= max {
        seq![loc(file, ln) + "Line size exceeded."@]
    } else {
        Seq::empty()
    }
}

pub open spec fn line_size_from(file: Seq<char>, lines: Seq<Seq<char>>, ln: nat, max: nat) -> Seq<
    Seq<char>,
>
    decreases lines.len(),
{
    if lines.len() == 0 {
        Seq::empty()
    } else {
        line_size_line(file, lines[0], ln, max) + line_size_from(
            file,
            lines.drop_first(),
            ln + 1,
            max,
        )
    }
}

/// Every diagnostic of the line-size rule, in line order.
pub open spec fn line_size_diags(file: Seq<char>, content: Seq<char>, max: nat) -> Seq<Seq<char>> {
    line_size_from(file, line_seq(content), 1, max)
}

fn emit_line_size(r: &mut Vec<String>, file: &str, line: &Vec<char>, ln: usize, max: usize)
    ensures
        final(r).deep_view() == old(r).deep_view() + line_size_line(
            file@,
            line@,
            ln as nat,
            max as nat,
        ),
{
    let ghost pre = r.deep_view();
    if line.len() >= max {
        let mut m = diag_prefix(file, ln as u128);
        m.append("Line size exceeded.");
        push_diag(r, m);
    }
    proof {
        assert(r.deep_view() =~= pre + line_size_line(file@, line@, ln as nat, max as nat));
    }
}

/// Runs the line-size scan over a whole file.
pub(crate) fn scan_line_size(filename: &str, content: &str, max: usize) -> (r: Vec<String>)
    ensures
        r.deep_view() == line_size_diags(filename@, content@, max as nat),
{
    {
        let lines = split_lines(content);
        let ghost l = lines.deep_view();
        let mut r: Vec<String> = Vec::new();
        let mut i: usize = 0;
        proof {
            assert(l.skip(0) =~= l);
            assert(r.deep_view() =~= Seq::<Seq<char>>::empty());
            assert(r.deep_view() + line_size_from(filename@, l, 1, max as nat)
                =~= line_size_from(filename@, l, 1, max as nat));
        }
        while i < lines.len()
            invariant
                0 <= i <= lines@.len(),
                l == lines.deep_view(),
                lines@.len() == l.len(),
                line_size_diags(filename@, content@, max as nat) == r.deep_view()
                    + line_size_from(filename@, l.skip(i as int), (i + 1) as nat, max as nat),
            decreases lines@.len() - i,
        {
            let line = &lines[i];
            proof {
                assert(l.skip(i as int)[0] =~= line@);
                assert(l.skip(i as int).drop_first() =~= l.skip(i + 1));
            }
            let ghost pre = r.deep_view();
            emit_line_size(&mut r, filename, line, i + 1, max);
            proof {
                let mid = line_size_line(filename@, line@, (i + 1) as nat, max as nat);
                let rest = line_size_from(filename@, l.skip(i + 1), (i + 2) as nat, max as nat);
                assert((pre + mid) + rest =~= pre + (mid + rest));
            }
            i = i + 1;
        }
        proof {
            assert(l.skip(i as int).len() == 0);
            assert(r.deep_view() + line_size_from(
                filename@,
                l.skip(i as int),
                (i + 1) as nat,
                max as nat,
            ) =~= r.deep_view());
        }
        r
    }
}

impl LineSize {
    pub fn new(max_line_size: usize) -> (r: LineSize)
        ensures
            r.max == max_line_size,
    {
        LineSize { max: max_line_size }
    }

    pub fn verify(&self, filename: &str, content: &str) -> (r: Vec<String>)
        ensures
            r.deep_view() == line_size_diags(filename@, content@, self.max as nat),
    {
        scan_line_size(filename, content, self.max)
    }
}

impl Rule for LineSize {
    fn verify(&self, filename: &str, content: &str) -> Vec<String> {
        LineSize::verify(self, filename, content)
    }
}

// ---------------------------------------------------------------------------
// SpaceIndentation
// ---------------------------------------------------------------------------

/// Flags every line that holds a tab character.
pub struct SpaceIndentation {}

pub open spec fn tab_line(file: Seq<char>, line: Seq<char>, ln: nat) -> Seq<Seq<char>> {
    if has_char(line, '\t') {
        seq![loc(file, ln) + "Tab used instead of spaces."@]
    } else {
        Seq::empty()
    }
}

pub open spec fn tab_from(file: Seq<char>, lines: Seq<Seq<char>>, ln: nat) -> Seq<Seq<char>>
    decreases lines.len(),
{
    if lines.len() == 0 {
        Seq::empty()
    } else {
        tab_line(file, lines[0], ln) + tab_from(file, lines.drop_first(), ln + 1)
    }
}

/// Every diagnostic of the tab rule, in line order.
pub open spec fn tab_diags(file: Seq<char>, content: Seq<char>) -> Seq<Seq<char>> {
    tab_from(file, line_seq(content), 1)
}

fn emit_tab(r: &mut Vec<String>, file: &str, line: &Vec<char>, ln: usize)
    ensures
        final(r).deep_view() == old(r).deep_view() + tab_line(file@, line@, ln as nat),
{
    let ghost pre = r.deep_view();
    if contains_char(line, '\t') {
        let mut m = diag_prefix(file, ln as u128);
        m.append("Tab used instead of spaces.");
        push_diag(r, m);
    }
    proof {
        assert(r.deep_view() =~= pre + tab_line(file@, line@, ln as nat));
    }
}

/// Runs the tab scan over a whole file.
pub(crate) fn scan_tab(filename: &str, content: &str) -> (r: Vec<String>)
    ensures
        r.deep_view() == tab_diags(filename@, content@),
{
    {
        let lines = split_lines(content);
        let ghost l = lines.deep_view();
        let mut r: Vec<String> = Vec::new();
        let mut i: usize = 0;
        proof {
            assert(l.skip(0) =~= l);
            assert(r.deep_view() =~= Seq::<Seq<char>>::empty());
            assert(r.deep_view() + tab_from(filename@, l, 1) =~= tab_from(filename@, l, 1));
        }
        while i < lines.len()
            invariant
                0 <= i <= lines@.len(),
                l == lines.deep_view(),
                lines@.len() == l.len(),
                tab_diags(filename@, content@) == r.deep_view() + tab_from(
                    filename@,
                    l.skip(i as int),
                    (i + 1) as nat,
                ),
            decreases lines@.len() - i,
        {
            let line = &lines[i];
            proof {
                assert(l.skip(i as int)[0] =~= line@);
                assert(l.skip(i as int).drop_first() =~= l.skip(i + 1));
            }
            let ghost pre = r.deep_view();
            emit_tab(&mut r, filename, line, i + 1);
            proof {
                let mid = tab_line(filename@, line@, (i + 1) as nat);
                let rest = tab_from(filename@, l.skip(i + 1), (i + 2) as nat);
                assert((pre + mid) + rest =~= pre + (mid + rest));
            }
            i = i + 1;
        }
        proof {
            assert(l.skip(i as int).len() == 0);
            assert(r.deep_view() + tab_from(filename@, l.skip(i as int), (i + 1) as nat)
                =~= r.deep_view());
        }
        r
    }
}

impl SpaceIndentation {
    pub fn new() -> (r: SpaceIndentation) {
        SpaceIndentation {  }
    }

    pub fn verify(&self, filename: &str, content: &str) -> (r: Vec<String>)
        ensures
            r.deep_view() == tab_diags(filename@, content@),
    {
        scan_tab(filename, content)
    }
}

impl Rule for SpaceIndentation {
    fn verify(&self, filename: &str, content: &str) -> Vec<String> {
        SpaceIndentation::verify(self, filename, content)
    }
}

// ---------------------------------------------------------------------------
// TrailingWhiteSpace
// ---------------------------------------------------------------------------

/// Flags every line whose last character is whitespace.
pub struct TrailingWhiteSpace {}

pub open spec fn trailing_ws_line(file: Seq<char>, line: Seq<char>, ln: nat) -> Seq<Seq<char>> {
    if line.len() > 0 && is_space(line.last()) {
        seq![loc(file, ln) + "Trailing whitespace."@]
    } else {
        Seq::empty()
    }
}

pub open spec fn trailing_ws_from(file: Seq<char>, lines: Seq<Seq<char>>, ln: nat) -> Seq<
    Seq<char>,
>
    decreases lines.len(),
{
    if lines.len() == 0 {
        Seq::empty()
    } else {
        trailing_ws_line(file, lines[0], ln) + trailing_ws_from(file, lines.drop_first(), ln + 1)
    }
}

/// Every diagnostic of the trailing-whitespace rule, in line order.
pub open spec fn trailing_ws_diags(file: Seq<char>, content: Seq<char>) -> Seq<Seq<char>> {
    trailing_ws_from(file, line_seq(content), 1)
}

fn emit_trailing_ws(r: &mut Vec<String>, file: &str, line: &Vec<char>, ln: usize)
    ensures
        final(r).deep_view() == old(r).deep_view() + trailing_ws_line(file@, line@, ln as nat),
{
    let ghost pre = r.deep_view();
    if line.len() > 0 && space(line[line.len() - 1]) {
        let mut m = diag_prefix(file, ln as u128);
        m.append("Trailing whitespace.");
        push_diag(r, m);
    }
    proof {
        assert(r.deep_view() =~= pre + trailing_ws_line(file@, line@, ln as nat));
    }
}

/// Runs the trailing-whitespace scan over a whole file.
pub(crate) fn scan_trailing_ws(filename: &str, content: &str) -> (r: Vec<String>)
    ensures
        r.deep_view() == trailing_ws_diags(filename@, content@),
{
    {
        let lines = split_lines(content);
        let ghost l = lines.deep_view();
        let mut r: Vec<String> = Vec::new();
        let mut i: usize = 0;
        proof {
            assert(l.skip(0) =~= l);
            assert(r.deep_view() =~= Seq::<Seq<char>>::empty());
            assert(r.deep_view() + trailing_ws_from(filename@, l, 1) =~= trailing_ws_from(
                filename@,
                l,
                1,
            ));
        }
        while i < lines.len()
            invariant
                0 <= i <= lines@.len(),
                l == lines.deep_view(),
                lines@.len() == l.len(),
                trailing_ws_diags(filename@, content@) == r.deep_view() + trailing_ws_from(
                    filename@,
                    l.skip(i as int),
                    (i + 1) as nat,
                ),
            decreases lines@.len() - i,
        {
            let line = &lines[i];
            proof {
                assert(l.skip(i as int)[0] =~= line@);
                assert(l.skip(i as int).drop_first() =~= l.skip(i + 1));
            }
            let ghost pre = r.deep_view();
            emit_trailing_ws(&mut r, filename, line, i + 1);
            proof {
                let mid = trailing_ws_line(filename@, line@, (i + 1) as nat);
                let rest = trailing_ws_from(filename@, l.skip(i + 1), (i + 2) as nat);
                assert((pre + mid) + rest =~= pre + (mid + rest));
            }
            i = i + 1;
        }
        proof {
            assert(l.skip(i as int).len() == 0);
            assert(r.deep_view() + trailing_ws_from(filename@, l.skip(i as int), (i + 1) as nat)
                =~= r.deep_view());
        }
        r
    }
}

impl TrailingWhiteSpace {
    pub fn new() -> (r: TrailingWhiteSpace) {
        TrailingWhiteSpace {  }
    }

    pub fn verify(&self, filename: &str, content: &str) -> (r: Vec<String>)
        ensures
            r.deep_view() == trailing_ws_diags(filename@, content@),
    {
        scan_trailing_ws(filename, content)
    }
}

impl Rule for TrailingWhiteSpace {
    fn verify(&self, filename: &str, content: &str) -> Vec<String> {
        TrailingWhiteSpace::verify(self, filename, content)
    }
}

// ---------------------------------------------------------------------------
// Semicolon
// ---------------------------------------------------------------------------

/// Flags semicolons that are not line terminators, or too many of them.
pub struct Semicolon {}

/// Diagnostics of the semicolon rule for one line. A single semicolon must be
/// the line's last character and must not follow whitespace; two semicolons
/// are tolerated only in a `for` header.
pub open spec fn semicolon_line(file: Seq<char>, line: Seq<char>, ln: nat) -> Seq<Seq<char>> {
    let n = char_count(line, ';');
    if n == 1 {
        if line.last() != ';' {
            seq![loc(file, ln) + "Semicolon must be followed by a newline."@]
        } else {
            let left = line.take(first_char_at(line, ';'));
            if trim_end(left).len() != 0 && trim_end(left).len() != left.len() {
                seq![loc(file, ln) + "Semicolon must not be precedeed by whitespaces."@]
            } else {
                Seq::empty()
            }
        }
    } else if n >= 2 {
        if !has_sub(line, "for"@) || n > 2 {
            seq![loc(file, ln) + "Too much semicolon found on this line."@]
        } else {
            Seq::empty()
        }
    } else {
        Seq::empty()
    }
}

pub open spec fn semicolon_from(file: Seq<char>, lines: Seq<Seq<char>>, ln: nat) -> Seq<Seq<char>>
    decreases lines.len(),
{
    if lines.len() == 0 {
        Seq::empty()
    } else {
        semicolon_line(file, lines[0], ln) + semicolon_from(file, lines.drop_first(), ln + 1)
    }
}

/// Every diagnostic of the semicolon rule, in line order.
pub open spec fn semicolon_diags(file: Seq<char>, content: Seq<char>) -> Seq<Seq<char>> {
    semicolon_from(file, line_seq(content), 1)
}

fn emit_semicolon(r: &mut Vec<String>, file: &str, line: &Vec<char>, ln: usize)
    ensures
        final(r).deep_view() == old(r).deep_view() + semicolon_line(file@, line@, ln as nat),
{
    let ghost pre = r.deep_view();
    let n = count_char(line, ';');
    proof {
        lemma_char_count_pos(line@, ';');
    }
    if n == 1 {
        if line[line.len() - 1] != ';' {
            let mut m = diag_prefix(file, ln as u128);
            m.append("Semicolon must be followed by a newline.");
            push_diag(r, m);
        } else {
            let f = find_char(line, ';');
            let left = copy_range(line, 0, f);
            let tw = trailing(&left);
            if left.len() - tw > 0 && tw != 0 {
                let mut m = diag_prefix(file, ln as u128);
                m.append("Semicolon must not be precedeed by whitespaces.");
                push_diag(r, m);
            }
        }
    } else if n >= 2 {
        if !contains_sub(line, "for") || n > 2 {
            let mut m = diag_prefix(file, ln as u128);
            m.append("Too much semicolon found on this line.");
            push_diag(r, m);
        }
    }
    proof {
        assert(r.deep_view() =~= pre + semicolon_line(file@, line@, ln as nat));
    }
}

impl Semicolon {
    pub fn new() -> (r: Semicolon) {
        Semicolon {  }
    }

    pub fn verify(&self, filename: &str, content: &str) -> (r: Vec<String>)
        ensures
            r.deep_view() == semicolon_diags(filename@, content@),
    {
        let lines = split_lines(content);
        let ghost l = lines.deep_view();
        let mut r: Vec<String> = Vec::new();
        let mut i: usize = 0;
        proof {
            assert(l.skip(0) =~= l);
            assert(r.deep_view() =~= Seq::<Seq<char>>::empty());
            assert(r.deep_view() + semicolon_from(filename@, l, 1) =~= semicolon_from(
                filename@,
                l,
                1,
            ));
        }
        while i < lines.len()
            invariant
                0 <= i <= lines@.len(),
                l == lines.deep_view(),
                lines@.len() == l.len(),
                semicolon_diags(filename@, content@) == r.deep_view() + semicolon_from(
                    filename@,
                    l.skip(i as int),
                    (i + 1) as nat,
                ),
            decreases lines@.len() - i,
        {
            let line = &lines[i];
            proof {
                assert(l.skip(i as int)[0] =~= line@);
                assert(l.skip(i as int).drop_first() =~= l.skip(i + 1));
            }
            let ghost pre = r.deep_view();
            emit_semicolon(&mut r, filename, line, i + 1);
            proof {
                let mid = semicolon_line(filename@, line@, (i + 1) as nat);
                let rest = semicolon_from(filename@, l.skip(i + 1), (i + 2) as nat);
                assert((pre + mid) + rest =~= pre + (mid + rest));
            }
            i = i + 1;
        }
        proof {
            assert(l.skip(i as int).len() == 0);
            assert(r.deep_view() + semicolon_from(filename@, l.skip(i as int), (i + 1) as nat)
                =~= r.deep_view());
        }
        r
    }
}

impl Rule for Semicolon {
    fn verify(&self, filename: &str, content: &str) -> Vec<String> {
        Semicolon::verify(self, filename, content)
    }
}

// ---------------------------------------------------------------------------
// Comma
// ---------------------------------------------------------------------------

/// Flags commas that are not followed by exactly one whitespace, are preceded
/// by whitespace, or end a line in more whitespace.
pub struct Comma {}

/// Diagnostics for one comma-separated field of a line. Fields between two
/// commas must start with exactly one whitespace (except the first) and must
/// not end in whitespace; the field after the last comma must not be blank.
pub open spec fn comma_part(file: Seq<char>, part: Seq<char>, idx: int, k: int, ln: nat) -> Seq<
    Seq<char>,
> {
    if idx < k {
        (if idx != 0 && trim_start(part).len() + 1 != part.len() {
            seq![loc(file, ln) + "Comma must be followed by exactly one whitespace."@]
        } else {
            Seq::empty()
        }) + (if trim_end(part).len() != part.len() {
            seq![loc(file, ln) + "Comma not must be precedeed by whitespaces."@]
        } else {
            Seq::empty()
        })
    } else {
        if trim(part).len() == 0 && part.len() > 0 {
            seq![loc(file, ln) + "The last comma must be followed by a newline."@]
        } else {
            Seq::empty()
        }
    }
}

pub open spec fn comma_parts_from(
    file: Seq<char>,
    ps: Seq<Seq<char>>,
    idx: int,
    k: int,
    ln: nat,
) -> Seq<Seq<char>>
    decreases ps.len(),
{
    if ps.len() == 0 {
        Seq::empty()
    } else {
        comma_part(file, ps[0], idx, k, ln) + comma_parts_from(
            file,
            ps.drop_first(),
            idx + 1,
            k,
            ln,
        )
    }
}

/// Diagnostics of the comma rule for one line.
pub open spec fn comma_line(file: Seq<char>, line: Seq<char>, ln: nat) -> Seq<Seq<char>> {
    comma_parts_from(file, parts(line, ','), 0, char_count(line, ',') as int, ln)
}

pub open spec fn comma_from(file: Seq<char>, lines: Seq<Seq<char>>, ln: nat) -> Seq<Seq<char>>
    decreases lines.len(),
{
    if lines.len() == 0 {
        Seq::empty()
    } else {
        comma_line(file, lines[0], ln) + comma_from(file, lines.drop_first(), ln + 1)
    }
}

/// Every diagnostic of the comma rule, in line order.
pub open spec fn comma_diags(file: Seq<char>, content: Seq<char>) -> Seq<Seq<char>> {
    comma_from(file, line_seq(content), 1)
}

/// Emits the comma diagnostics of one line, field by field.
pub(crate) fn emit_comma(r: &mut Vec<String>, file: &str, line: &Vec<char>, ln: usize)
    ensures
        final(r).deep_view() == old(r).deep_view() + comma_line(file@, line@, ln as nat),
{
    let ghost start = r.deep_view();
    let ps = split_on(line, ',');
    let ghost pv = ps.deep_view();
    let k = count_char(line, ',');
    let mut j: usize = 0;
    proof {
        assert(pv.skip(0) =~= pv);
        assert(comma_line(file@, line@, ln as nat) == comma_parts_from(
            file@,
            pv,
            0,
            k as int,
            ln as nat,
        ));
    }
    while j < ps.len()
        invariant
            0 <= j <= ps@.len(),
            pv == ps.deep_view(),
            ps@.len() == pv.len(),
            k as int == char_count(line@, ','),
            start + comma_line(file@, line@, ln as nat) == r.deep_view() + comma_parts_from(
                file@,
                pv.skip(j as int),
                j as int,
                k as int,
                ln as nat,
            ),
        decreases ps@.len() - j,
    {
        let part = &ps[j];
        proof {
            assert(pv.skip(j as int)[0] =~= part@);
            assert(pv.skip(j as int).drop_first() =~= pv.skip(j + 1));
        }
        let ghost pre = r.deep_view();
        if j < k {
            let lw = leading(part);
            if j != 0 && lw != 1 {
                let mut m = diag_prefix(file, ln as u128);
                m.append("Comma must be followed by exactly one whitespace.");
                push_diag(r, m);
            }
            let tw = trailing(part);
            if tw != 0 {
                let mut m = diag_prefix(file, ln as u128);
                m.append("Comma not must be precedeed by whitespaces.");
                push_diag(r, m);
            }
            proof {
                assert(trim_start(part@).len() == part@.len() - leading_spaces(part@));
                assert(trim_end(part@).len() == part@.len() - trailing_spaces(part@));
                assert(r.deep_view() =~= pre + comma_part(
                    file@,
                    part@,
                    j as int,
                    k as int,
                    ln as nat,
                ));
            }
        } else {
            let lw = leading(part);
            if lw == part.len() && part.len() > 0 {
                let mut m = diag_prefix(file, ln as u128);
                m.append("The last comma must be followed by a newline.");
                push_diag(r, m);
            }
            proof {
                let t = trim_start(part@);
                if leading_spaces(part@) == part@.len() {
                    assert(t.len() == 0);
                    assert(trim(part@).len() == 0);
                } else {
                    crate::text::lemma_leading_spaces_bound(part@);
                    assert(!is_space(t[0]));
                    crate::text::lemma_trailing_spaces_bound(t);
                    if trailing_spaces(t) == t.len() {
                        assert(is_space(t[0]));
                    }
                    assert(trim(part@).len() > 0);
                }
                assert(r.deep_view() =~= pre + comma_part(
                    file@,
                    part@,
                    j as int,
                    k as int,
                    ln as nat,
                ));
            }
        }
        proof {
            let mid = comma_part(file@, part@, j as int, k as int, ln as nat);
            let rest = comma_parts_from(file@, pv.skip(j + 1), j + 1, k as int, ln as nat);
            assert((pre + mid) + rest =~= pre + (mid + rest));
        }
        j = j + 1;
    }
    proof {
        assert(pv.skip(j as int).len() == 0);
        assert(r.deep_view() + comma_parts_from(
            file@,
            pv.skip(j as int),
            j as int,
            k as int,
            ln as nat,
        ) =~= r.deep_view());
    }
}

impl Comma {
    pub fn new() -> (r: Comma) {
        Comma {  }
    }

    pub fn verify(&self, filename: &str, content: &str) -> (r: Vec<String>)
        ensures
            r.deep_view() == comma_diags(filename@, content@),
    {
        let lines = split_lines(content);
        let ghost l = lines.deep_view();
        let mut r: Vec<String> = Vec::new();
        let mut i: usize = 0;
        proof {
            assert(l.skip(0) =~= l);
            assert(r.deep_view() =~= Seq::<Seq<char>>::empty());
            assert(r.deep_view() + comma_from(filename@, l, 1) =~= comma_from(filename@, l, 1));
        }
        while i < lines.len()
            invariant
                0 <= i <= lines@.len(),
                l == lines.deep_view(),
                lines@.len() == l.len(),
                comma_diags(filename@, content@) == r.deep_view() + comma_from(
                    filename@,
                    l.skip(i as int),
                    (i + 1) as nat,
                ),
            decreases lines@.len() - i,
        {
            let line = &lines[i];
            proof {
                assert(l.skip(i as int)[0] =~= line@);
                assert(l.skip(i as int).drop_first() =~= l.skip(i + 1));
            }
            let ghost pre = r.deep_view();
            emit_comma(&mut r, filename, line, i + 1);
            proof {
                let mid = comma_line(filename@, line@, (i + 1) as nat);
                let rest = comma_from(filename@, l.skip(i + 1), (i + 2) as nat);
                assert((pre + mid) + rest =~= pre + (mid + rest));
            }
            i = i + 1;
        }
        proof {
            assert(l.skip(i as int).len() == 0);
            assert(r.deep_view() + comma_from(filename@, l.skip(i as int), (i + 1) as nat)
                =~= r.deep_view());
        }
        r
    }
}

impl Rule for Comma {
    fn verify(&self, filename: &str, content: &str) -> Vec<String> {
        Comma::verify(self, filename, content)
    }
}

} // verus!
