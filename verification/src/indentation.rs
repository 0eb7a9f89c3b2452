//! The block-depth verifier: infers nested block structure from raw text and
//! checks every line's leading whitespace against the depth that structure
//! implies. Brace-delimited blocks, braceless one-line control bodies and
//! switch/case regions each follow their own expected-indent rule.
//!
//! The module also holds this revision's flat per-line rules on semicolons,
//! commas and structure fields.

use vstd::prelude::*;
use vstd::string::*;

use crate::Rule;
use crate::space::{
    line_size_diags, scan_line_size, scan_tab, scan_trailing_ws, tab_diags, trailing_ws_diags,
};
use crate::text::{
    begins, char_count, contains_char, contains_sub, copy_range, count_char, decimal,
    diag_prefix, find_char, first_char_at, has_char, has_sub, is_space, leading, leading_spaces,
    lemma_char_count_pos, line_seq, loc, mul_capped, mulcap, parts, push_diag, split_lines,
    space, split_on, trailing, trailing_spaces, trim, trim_end, trim_start, trimmed_begins_with,
    words,
};

verus! {

// ---------------------------------------------------------------------------
// LineSize, SpaceIndentation, TrailingWhiteSpace
// ---------------------------------------------------------------------------

/// Flags every line at least `max` characters long.
pub struct LineSize {
    pub max: usize,
}

impl LineSize {
    pub fn new(max_line_size: usize) -> (r: LineSize)
        ensures
            r.max == max_line_size,
    {
        LineSize { max: max_line_size }
    }

    pub fn verify(&self, filename: &str, content: &str) -> (r: Vec<String>)
        ensures
            r.deep_view() == line_size_diags(filename@, content@, self.max as nat),
    {
        scan_line_size(filename, content, self.max)
    }
}

impl Rule for LineSize {
    fn verify(&self, filename: &str, content: &str) -> Vec<String> {
        LineSize::verify(self, filename, content)
    }
}

/// Flags every line that holds a tab character.
pub struct SpaceIndentation {}

impl SpaceIndentation {
    pub fn new() -> (r: SpaceIndentation) {
        SpaceIndentation {  }
    }

    pub fn verify(&self, filename: &str, content: &str) -> (r: Vec<String>)
        ensures
            r.deep_view() == tab_diags(filename@, content@),
    {
        scan_tab(filename, content)
    }
}

impl Rule for SpaceIndentation {
    fn verify(&self, filename: &str, content: &str) -> Vec<String> {
        SpaceIndentation::verify(self, filename, content)
    }
}

/// Flags every line whose last character is whitespace.
pub struct TrailingWhiteSpace {}

impl TrailingWhiteSpace {
    pub fn new() -> (r: TrailingWhiteSpace) {
        TrailingWhiteSpace {  }
    }

    pub fn verify(&self, filename: &str, content: &str) -> (r: Vec<String>)
        ensures
            r.deep_view() == trailing_ws_diags(filename@, content@),
    {
        scan_trailing_ws(filename, content)
    }
}

impl Rule for TrailingWhiteSpace {
    fn verify(&self, filename: &str, content: &str) -> Vec<String> {
        TrailingWhiteSpace::verify(self, filename, content)
    }
}

// ---------------------------------------------------------------------------
// IndentationLevel: the block-depth verifier
// ---------------------------------------------------------------------------

/// The three region kinds whose expected-indent rules differ: an ordinary
/// brace-delimited block, the one-line body of a braceless control keyword,
/// and the body of one switch case up to its terminator.
#[derive(Clone, Copy, PartialEq, Eq, Structural)]
pub enum Region {
    Basic,
    OneLine,
    SwitchCase,
}

/// One open region on the scan's stack.
#[derive(Clone, Copy, PartialEq, Eq, Structural)]
pub struct Frame {
    pub kind: Region,
    pub depth: usize,
}

/// The mathematical shadow of a [`Frame`], with an unbounded depth.
pub ghost struct FrameView {
    pub kind: Region,
    pub depth: nat,
}

pub open spec fn frame_views(s: Seq<Frame>) -> Seq<FrameView> {
    s.map_values(|f: Frame| FrameView { kind: f.kind, depth: f.depth as nat })
}

/// One finding of the block-depth verifier, before rendering.
pub ghost enum Finding {
    WrongIndent { ln: nat, expected: nat, got: nat },
    UnexpectedBrace { ln: nat },
    MissingBraces { ln: nat, open: nat },
}

impl Finding {
    /// The line a finding points at.
    pub open spec fn line(self) -> nat {
        match self {
            Finding::WrongIndent { ln, .. } => ln,
            Finding::UnexpectedBrace { ln } => ln,
            Finding::MissingBraces { ln, .. } => ln,
        }
    }
}

/// The diagnostic text of one finding.
pub open spec fn render_finding(file: Seq<char>, f: Finding) -> Seq<char> {
    match f {
        Finding::WrongIndent { ln, expected, got } => loc(file, ln)
            + "Wrong indentation level. Expected "@ + decimal(expected) + " whitespaces got "@
            + decimal(got),
        Finding::UnexpectedBrace { ln } => loc(file, ln) + "Unexpected closing brace."@,
        Finding::MissingBraces { ln, open } => loc(file, ln) + "Expected "@ + decimal(open)
            + " more closing brace."@,
    }
}

pub open spec fn render_all(file: Seq<char>, evs: Seq<Finding>) -> Seq<Seq<char>> {
    evs.map_values(|f: Finding| render_finding(file, f))
}

/// A control keyword that may carry a braceless one-line body.
pub open spec fn one_line_head(line: Seq<char>) -> bool {
    begins(trim_start(line), "if"@) || begins(trim_start(line), "else"@) || begins(
        trim_start(line),
        "switch"@,
    ) || begins(trim_start(line), "while"@) || begins(trim_start(line), "for"@)
}

/// A one-line body follows: the line starts a control keyword and the next
/// line exists and is not an opening brace.
pub open spec fn one_line_trigger(lines: Seq<Seq<char>>, pos: int) -> bool {
    one_line_head(lines[pos]) && pos + 1 < lines.len() && !begins(
        trim_start(lines[pos + 1]),
        "{"@,
    )
}

pub open spec fn case_head(line: Seq<char>) -> bool {
    begins(trim_start(line), "case"@) || begins(trim_start(line), "default"@)
}

pub open spec fn closing_head(line: Seq<char>) -> bool {
    begins(trim_start(line), "}"@)
}

pub open spec fn opening_head(line: Seq<char>) -> bool {
    begins(trim_start(line), "{"@)
}

pub open spec fn break_head(line: Seq<char>) -> bool {
    begins(trim_start(line), "break"@)
}

pub open spec fn return_head(line: Seq<char>) -> bool {
    begins(trim_start(line), "return"@)
}

/// How many `Basic` regions the stack holds.
pub open spec fn basic_count(s: Seq<FrameView>) -> nat
    decreases s.len(),
{
    if s.len() == 0 {
        0
    } else {
        basic_count(s.drop_last()) + (if s.last().kind is Basic {
            1 as nat
        } else {
            0 as nat
        })
    }
}

/// The findings of the block-depth verifier from line `pos` onward, given the
/// stack of open regions. One forward scan; each line is checked against the
/// expected indent of the innermost region, one-line bodies are entered for
/// exactly the next line, and a switch case ends at its terminator or
/// recovers, without consuming the line, at the next label or closing brace.
/// A closing brace at depth zero is reported and the depth stays clamped; at
/// the end of the input the still-open blocks are reported once.
pub open spec fn walk(lines: Seq<Seq<char>>, pos: int, stack: Seq<FrameView>, unit: nat) -> Seq<
    Finding,
>
    decreases lines.len() - pos, stack.len(),
{
    if pos < 0 || pos > lines.len() || stack.len() == 0 {
        Seq::empty()
    } else if pos == lines.len() {
        if basic_count(stack) >= 2 {
            seq![
                Finding::MissingBraces {
                    ln: (lines.len() + 1) as nat,
                    open: (basic_count(stack) - 1) as nat,
                },
            ]
        } else {
            Seq::empty()
        }
    } else {
        let line = lines[pos];
        let ln = (pos + 1) as nat;
        let top = stack.last();
        match top.kind {
            Region::OneLine => {
                let got = leading_spaces(line);
                let expected = mulcap(top.depth, unit);
                (if got != expected {
                    seq![Finding::WrongIndent { ln, expected, got }]
                } else {
                    Seq::empty()
                }) + walk(lines, pos + 1, stack.drop_last(), unit)
            },
            Region::SwitchCase => {
                if case_head(line) || closing_head(line) {
                    walk(lines, pos, stack.drop_last(), unit)
                } else {
                    let got = leading_spaces(line);
                    let expected = mulcap(top.depth, unit);
                    let evs = if line.len() != 0 && got != expected {
                        seq![Finding::WrongIndent { ln, expected, got }]
                    } else {
                        Seq::empty()
                    };
                    let stack2 = if one_line_trigger(lines, pos) {
                        stack.push(FrameView { kind: Region::OneLine, depth: top.depth + 1 })
                    } else if break_head(line) {
                        stack.drop_last()
                    } else if return_head(line) && pos + 1 < lines.len() && !break_head(
                        lines[pos + 1],
                    ) {
                        stack.drop_last()
                    } else {
                        stack
                    };
                    evs + walk(lines, pos + 1, stack2, unit)
                }
            },
            Region::Basic => {
                let got = leading_spaces(line);
                let closing = closing_head(line);
                let expected = if closing && top.depth > 0 {
                    mulcap((top.depth - 1) as nat, unit)
                } else {
                    mulcap(top.depth, unit)
                };
                let evs = (if closing && top.depth == 0 {
                    seq![Finding::UnexpectedBrace { ln }]
                } else {
                    Seq::empty()
                }) + (if line.len() != 0 && got != expected {
                    seq![Finding::WrongIndent { ln, expected, got }]
                } else {
                    Seq::empty()
                });
                let stack2 = if one_line_trigger(lines, pos) {
                    stack.push(FrameView { kind: Region::OneLine, depth: top.depth + 1 })
                } else if closing {
                    if top.depth > 0 {
                        stack.drop_last()
                    } else {
                        stack
                    }
                } else if opening_head(line) {
                    stack.push(FrameView { kind: Region::Basic, depth: top.depth + 1 })
                } else if case_head(line) {
                    stack.push(FrameView { kind: Region::SwitchCase, depth: top.depth + 1 })
                } else {
                    stack
                };
                evs + walk(lines, pos + 1, stack2, unit)
            },
        }
    }
}

/// The whole file's findings: one scan from the first line, inside the
/// implicit top-level block at depth zero.
pub open spec fn walk_file(content: Seq<char>, unit: nat) -> Seq<Finding> {
    walk(line_seq(content), 0, seq![FrameView { kind: Region::Basic, depth: 0 }], unit)
}

/// Every diagnostic of the block-depth verifier, rendered in order.
pub open spec fn indentation_level_diags(file: Seq<char>, content: Seq<char>, unit: nat) -> Seq<
    Seq<char>,
> {
    render_all(file, walk_file(content, unit))
}

proof fn lemma_basic_count_first(s: Seq<FrameView>)
    requires
        s.len() >= 1,
        s[0].kind is Basic,
    ensures
        basic_count(s) >= 1,
    decreases s.len(),
{
    if s.len() > 1 {
        assert(s.drop_last()[0] == s[0]);
        lemma_basic_count_first(s.drop_last());
    }
}

/// Checks every line's indentation against the block structure implied by
/// braces, one-line control bodies and switch cases, `nb_spaces` columns per
/// nesting level.
pub struct IndentationLevel {
    pub nb_spaces: usize,
}

/// Builds the wrong-indentation diagnostic.
pub(crate) fn wrong_indent_msg(file: &str, ln: usize, expected: usize, got: usize) -> (m: String)
    ensures
        m@ == render_finding(
            file@,
            Finding::WrongIndent { ln: ln as nat, expected: expected as nat, got: got as nat },
        ),
{
    let mut m = diag_prefix(file, ln as u128);
    m.append("Wrong indentation level. Expected ");
    crate::text::append_decimal(&mut m, expected as u128);
    m.append(" whitespaces got ");
    crate::text::append_decimal(&mut m, got as u128);
    proof {
        assert(m@ =~= render_finding(
            file@,
            Finding::WrongIndent { ln: ln as nat, expected: expected as nat, got: got as nat },
        ));
    }
    m
}

impl IndentationLevel {
    pub fn new(nb_spaces_per_indentation_level: usize) -> (r: IndentationLevel)
        ensures
            r.nb_spaces == nb_spaces_per_indentation_level,
    {
        IndentationLevel { nb_spaces: nb_spaces_per_indentation_level }
    }

    #[verifier::rlimit(100)]
    pub fn verify(&self, filename: &str, content: &str) -> (r: Vec<String>)
        ensures
            r.deep_view() == indentation_level_diags(
                filename@,
                content@,
                self.nb_spaces as nat,
            ),
    {
        let lines = split_lines(content);
        let ghost l = lines.deep_view();
        let llen = lines.len();
        let unit = self.nb_spaces;
        let ghost u = unit as nat;
        let mut stack: Vec<Frame> = Vec::new();
        stack.push(Frame { kind: Region::Basic, depth: 0 });
        let mut nbasic: u128 = 1;
        let mut r: Vec<String> = Vec::new();
        let mut i: usize = 0;
        proof {
            assert(frame_views(stack@) =~= seq![FrameView { kind: Region::Basic, depth: 0 }]);
            assert(basic_count(frame_views(stack@)) == 1) by {
                let s = frame_views(stack@);
                assert(s =~= seq![FrameView { kind: Region::Basic, depth: 0 }]);
                assert(s.drop_last() =~= Seq::<FrameView>::empty());
                assert(basic_count(Seq::<FrameView>::empty()) == 0);
                assert(s.last().kind is Basic);
            }
            assert(r.deep_view() =~= Seq::<Seq<char>>::empty());
            assert(r.deep_view() + render_all(filename@, walk(l, 0, frame_views(stack@), u))
                =~= render_all(filename@, walk(l, 0, frame_views(stack@), u)));
        }
        while i < llen
            invariant
                0 <= i <= llen,
                llen == l.len(),
                l == lines.deep_view(),
                lines@.len() == llen,
                u == unit as nat,
                stack@.len() >= 1,
                stack@[0].kind is Basic,
                stack@[0].depth == 0,
                forall|k: int| 0 <= k < stack@.len() ==> (#[trigger] stack@[k]).depth <= i,
                nbasic as nat == basic_count(frame_views(stack@)),
                1 <= nbasic,
                nbasic as int <= i as int + 1,
                indentation_level_diags(filename@, content@, u) == r.deep_view() + render_all(
                    filename@,
                    walk(l, i as int, frame_views(stack@), u),
                ),
            decreases llen - i, stack@.len(),
        {
            let ghost s0 = frame_views(stack@);
            let ghost g0: Frame = stack@[0];
            let line = &lines[i];
            let top = stack[stack.len() - 1];
            proof {
                assert(l[i as int] =~= line@);
                assert(s0.last() == FrameView { kind: top.kind, depth: top.depth as nat });
            }
            match top.kind {
                Region::OneLine => {
                    let got = leading(line);
                    let expected = mul_capped(top.depth, unit);
                    let ghost evs = walk(l, i as int, s0, u).take(
                        walk(l, i as int, s0, u).len() - walk(
                            l,
                            i + 1,
                            s0.drop_last(),
                            u,
                        ).len(),
                    );
                    let ghost pre = r.deep_view();
                    if got != expected {
                        let m = wrong_indent_msg(filename, i + 1, expected, got);
                        push_diag(&mut r, m);
                    }
                    let popped = stack.pop();
                    proof {
                        assert(frame_views(stack@) =~= s0.drop_last());
                        assert(nbasic == basic_count(frame_views(stack@)) + (
                        if s0.last().kind is Basic {
                            1 as int
                        } else {
                            0 as int
                        }));
                        assert(!(s0.last().kind is Basic));
                        let fe: Seq<Finding> = if got as nat != mulcap(top.depth as nat, u) {
                            seq![
                                Finding::WrongIndent {
                                    ln: (i + 1) as nat,
                                    expected: mulcap(top.depth as nat, u),
                                    got: got as nat,
                                },
                            ]
                        } else {
                            Seq::empty()
                        };
                        let rest = walk(l, i + 1, s0.drop_last(), u);
                        assert(walk(l, i as int, s0, u) == fe + rest);
                        assert(render_all(filename@, fe + rest) =~= render_all(filename@, fe)
                            + render_all(filename@, rest));
                        assert(r.deep_view() =~= pre + render_all(filename@, fe));
                        assert((pre + render_all(filename@, fe)) + render_all(filename@, rest)
                            =~= pre + (render_all(filename@, fe) + render_all(filename@, rest)));
                        if stack@.len() == 0 {
                            assert(s0[0] == s0.last());
                        }
                        assert(stack@[0] == g0);
                        lemma_basic_count_first(frame_views(stack@));
                    }
                    i = i + 1;
                },
                Region::SwitchCase => {
                    if trimmed_begins_with(line, "case") || trimmed_begins_with(line, "default")
                        || trimmed_begins_with(line, "}") {
                        let popped = stack.pop();
                        proof {
                            assert(frame_views(stack@) =~= s0.drop_last());
                            assert(walk(l, i as int, s0, u) == walk(
                                l,
                                i as int,
                                s0.drop_last(),
                                u,
                            ));
                            assert(!(s0.last().kind is Basic));
                            if stack@.len() == 0 {
                                assert(s0[0] == s0.last());
                            }
                            assert(stack@[0] == g0);
                            lemma_basic_count_first(frame_views(stack@));
                        }
                    } else {
                        let got = leading(line);
                        let expected = mul_capped(top.depth, unit);
                        let ghost pre = r.deep_view();
                        if line.len() != 0 && got != expected {
                            let m = wrong_indent_msg(filename, i + 1, expected, got);
                            push_diag(&mut r, m);
                        }
                        let one_line = one_line_check(&lines, i);
                        if one_line {
                            stack.push(Frame { kind: Region::OneLine, depth: top.depth + 1 });
                        } else if trimmed_begins_with(line, "break") {
                            let popped = stack.pop();
                        } else if trimmed_begins_with(line, "return") && i + 1 < llen
                            && !trimmed_begins_with(&lines[i + 1], "break") {
                            let popped = stack.pop();
                        }
                        proof {
                            if i + 1 < llen {
                                assert(l[i + 1] =~= lines@[i + 1]@);
                            }
                            let fe: Seq<Finding> = if line@.len() != 0 && got as nat != mulcap(
                                top.depth as nat,
                                u,
                            ) {
                                seq![
                                    Finding::WrongIndent {
                                        ln: (i + 1) as nat,
                                        expected: mulcap(top.depth as nat, u),
                                        got: got as nat,
                                    },
                                ]
                            } else {
                                Seq::empty()
                            };
                            let s2 = if one_line_trigger(l, i as int) {
                                s0.push(
                                    FrameView {
                                        kind: Region::OneLine,
                                        depth: top.depth as nat + 1,
                                    },
                                )
                            } else if break_head(l[i as int]) {
                                s0.drop_last()
                            } else if return_head(l[i as int]) && i + 1 < llen && !break_head(
                                l[i + 1],
                            ) {
                                s0.drop_last()
                            } else {
                                s0
                            };
                            assert(frame_views(stack@) =~= s2);
                            let rest = walk(l, i + 1, s2, u);
                            assert(walk(l, i as int, s0, u) == fe + rest);
                            assert(render_all(filename@, fe + rest) =~= render_all(filename@, fe)
                                + render_all(filename@, rest));
                            assert(r.deep_view() =~= pre + render_all(filename@, fe));
                            assert((pre + render_all(filename@, fe)) + render_all(filename@, rest)
                                =~= pre + (render_all(filename@, fe) + render_all(
                                filename@,
                                rest,
                            )));
                            if s2 == s0.drop_last() {
                                assert(!(s0.last().kind is Basic));
                                if stack@.len() == 0 {
                                    assert(s0[0] == s0.last());
                                }
                            } else if s2 != s0 {
                                assert(s2.drop_last() =~= s0);
                                assert(!(s2.last().kind is Basic));
                            }
                            assert(stack@[0] == g0);
                            assert(nbasic == basic_count(frame_views(stack@)));
                            lemma_basic_count_first(frame_views(stack@));
                        }
                        i = i + 1;
                    }
                },
                Region::Basic => {
                    let got = leading(line);
                    let closing = trimmed_begins_with(line, "}");
                    let expected = if closing && top.depth > 0 {
                        mul_capped(top.depth - 1, unit)
                    } else {
                        mul_capped(top.depth, unit)
                    };
                    let ghost pre = r.deep_view();
                    if closing && top.depth == 0 {
                        let mut m = diag_prefix(filename, (i + 1) as u128);
                        m.append("Unexpected closing brace.");
                        proof {
                            assert(m@ =~= render_finding(
                                filename@,
                                Finding::UnexpectedBrace { ln: (i + 1) as nat },
                            ));
                        }
                        push_diag(&mut r, m);
                    }
                    if line.len() != 0 && got != expected {
                        let m = wrong_indent_msg(filename, i + 1, expected, got);
                        push_diag(&mut r, m);
                    }
                    let one_line = one_line_check(&lines, i);
                    let mut pushed_basic: bool = false;
                    let mut popped_basic: bool = false;
                    if one_line {
                        stack.push(Frame { kind: Region::OneLine, depth: top.depth + 1 });
                    } else if closing {
                        if top.depth > 0 {
                            let popped = stack.pop();
                            popped_basic = true;
                        }
                    } else if trimmed_begins_with(line, "{") {
                        stack.push(Frame { kind: Region::Basic, depth: top.depth + 1 });
                        pushed_basic = true;
                    } else if trimmed_begins_with(line, "case") || trimmed_begins_with(
                        line,
                        "default",
                    ) {
                        stack.push(Frame { kind: Region::SwitchCase, depth: top.depth + 1 });
                    }
                    if pushed_basic {
                        nbasic = nbasic + 1;
                    }
                    if popped_basic {
                        nbasic = nbasic - 1;
                    }
                    proof {
                        if i + 1 < llen {
                            assert(l[i + 1] =~= lines@[i + 1]@);
                        }
                        let sexpected: nat = if closing_head(l[i as int]) && top.depth > 0 {
                            mulcap((top.depth - 1) as nat, u)
                        } else {
                            mulcap(top.depth as nat, u)
                        };
                        let fe: Seq<Finding> = (if closing_head(l[i as int]) && top.depth == 0 {
                            seq![Finding::UnexpectedBrace { ln: (i + 1) as nat }]
                        } else {
                            Seq::empty()
                        }) + (if line@.len() != 0 && got as nat != sexpected {
                            seq![
                                Finding::WrongIndent {
                                    ln: (i + 1) as nat,
                                    expected: sexpected,
                                    got: got as nat,
                                },
                            ]
                        } else {
                            Seq::empty()
                        });
                        let s2 = if one_line_trigger(l, i as int) {
                            s0.push(FrameView { kind: Region::OneLine, depth: top.depth as nat + 1 })
                        } else if closing_head(l[i as int]) {
                            if top.depth > 0 {
                                s0.drop_last()
                            } else {
                                s0
                            }
                        } else if opening_head(l[i as int]) {
                            s0.push(FrameView { kind: Region::Basic, depth: top.depth as nat + 1 })
                        } else if case_head(l[i as int]) {
                            s0.push(
                                FrameView { kind: Region::SwitchCase, depth: top.depth as nat + 1 },
                            )
                        } else {
                            s0
                        };
                        assert(frame_views(stack@) =~= s2);
                        let rest = walk(l, i + 1, s2, u);
                        assert(walk(l, i as int, s0, u) == fe + rest);
                        assert(render_all(filename@, fe + rest) =~= render_all(filename@, fe)
                            + render_all(filename@, rest));
                        assert(r.deep_view() =~= pre + render_all(filename@, fe));
                        assert((pre + render_all(filename@, fe)) + render_all(filename@, rest)
                            =~= pre + (render_all(filename@, fe) + render_all(filename@, rest)));
                        if s2 == s0.drop_last() {
                            assert(s0.last().kind is Basic);
                            assert(s0.last().depth > 0);
                            if stack@.len() == 0 {
                                assert(s0[0] == s0.last());
                            }
                        } else if s2 != s0 {
                            assert(s2.drop_last() =~= s0);
                        }
                        assert(stack@[0] == g0);
                        assert(nbasic == basic_count(frame_views(stack@)));
                        lemma_basic_count_first(frame_views(stack@));
                    }
                    i = i + 1;
                },
            }
        }
        proof {
            assert(walk(l, i as int, frame_views(stack@), u) == (
            if basic_count(frame_views(stack@)) >= 2 {
                seq![
                    Finding::MissingBraces {
                        ln: (l.len() + 1) as nat,
                        open: (basic_count(frame_views(stack@)) - 1) as nat,
                    },
                ]
            } else {
                Seq::<Finding>::empty()
            }));
        }
        if nbasic >= 2 {
            let mut m = diag_prefix(filename, (llen as u128) + 1);
            m.append("Expected ");
            crate::text::append_decimal(&mut m, (nbasic - 1) as u128);
            m.append(" more closing brace.");
            proof {
                assert(m@ =~= render_finding(
                    filename@,
                    Finding::MissingBraces {
                        ln: (llen + 1) as nat,
                        open: (nbasic - 1) as nat,
                    },
                ));
            }
            let ghost pre = r.deep_view();
            push_diag(&mut r, m);
            proof {
                assert(r.deep_view() =~= pre + render_all(
                    filename@,
                    walk(l, i as int, frame_views(stack@), u),
                ));
            }
        } else {
            proof {
                assert(r.deep_view() + render_all(
                    filename@,
                    walk(l, i as int, frame_views(stack@), u),
                ) =~= r.deep_view());
            }
        }
        r
    }
}

/// Is the line at `i` a control keyword whose body is the next line?
fn one_line_check(lines: &Vec<Vec<char>>, i: usize) -> (b: bool)
    requires
        i < lines@.len(),
    ensures
        b == one_line_trigger(lines.deep_view(), i as int),
{
    let n = lines.len();
    let line = &lines[i];
    proof {
        assert(lines.deep_view()[i as int] =~= line@);
    }
    let head = trimmed_begins_with(line, "if") || trimmed_begins_with(line, "else")
        || trimmed_begins_with(line, "switch") || trimmed_begins_with(line, "while")
        || trimmed_begins_with(line, "for");
    if !head {
        return false;
    }
    if i + 1 < n {
        let next = &lines[i + 1];
        proof {
            assert(lines.deep_view()[i + 1] =~= next@);
        }
        !trimmed_begins_with(next, "{")
    } else {
        false
    }
}

impl Rule for IndentationLevel {
    fn verify(&self, filename: &str, content: &str) -> Vec<String> {
        IndentationLevel::verify(self, filename, content)
    }
}

// ---------------------------------------------------------------------------
// Semicolon
// ---------------------------------------------------------------------------

/// Flags semicolons that do not terminate their line, follow whitespace, or
/// appear too often.
pub struct Semicolon {}

/// Diagnostics of the semicolon rule for one line. One semicolon must end the
/// line (or the line must continue a macro) and must not follow whitespace; a
/// `while` header may hold none; a `for` header may hold two.
pub open spec fn ind_semicolon_line(file: Seq<char>, line: Seq<char>, ln: nat) -> Seq<Seq<char>> {
    let n = char_count(line, ';');
    if n == 1 {
        (if has_sub(line, " while"@) {
            seq![loc(file, ln) + "Too much semicolon found on this line."@]
        } else {
            Seq::empty()
        }) + (if !crate::text::ends(line, ";"@) && !crate::text::ends(line, "\\"@) {
            seq![loc(file, ln) + "Semicolon must be followed by a newline."@]
        } else {
            Seq::empty()
        }) + ({
            let left = line.take(first_char_at(line, ';'));
            if trim_end(left).len() != 0 && trim_end(left).len() != left.len() {
                seq![loc(file, ln) + "Semicolon must not be precedeed by whitespaces."@]
            } else {
                Seq::empty()
            }
        })
    } else if n >= 2 {
        if !has_sub(line, " for"@) || n > 2 {
            seq![loc(file, ln) + "Too much semicolon found on this line."@]
        } else {
            Seq::empty()
        }
    } else {
        Seq::empty()
    }
}

pub open spec fn ind_semicolon_from(file: Seq<char>, lines: Seq<Seq<char>>, ln: nat) -> Seq<
    Seq<char>,
>
    decreases lines.len(),
{
    if lines.len() == 0 {
        Seq::empty()
    } else {
        ind_semicolon_line(file, lines[0], ln) + ind_semicolon_from(
            file,
            lines.drop_first(),
            ln + 1,
        )
    }
}

/// Every diagnostic of the semicolon rule, in line order.
pub open spec fn ind_semicolon_diags(file: Seq<char>, content: Seq<char>) -> Seq<Seq<char>> {
    ind_semicolon_from(file, line_seq(content), 1)
}

fn emit_ind_semicolon(r: &mut Vec<String>, file: &str, line: &Vec<char>, ln: usize)
    ensures
        final(r).deep_view() == old(r).deep_view() + ind_semicolon_line(file@, line@, ln as nat),
{
    let ghost pre = r.deep_view();
    let n = count_char(line, ';');
    proof {
        lemma_char_count_pos(line@, ';');
    }
    if n == 1 {
        if contains_sub(line, " while") {
            let mut m = diag_prefix(file, ln as u128);
            m.append("Too much semicolon found on this line.");
            push_diag(r, m);
        }
        if !crate::text::ends_with(line, ";") && !crate::text::ends_with(line, "\\") {
            let mut m = diag_prefix(file, ln as u128);
            m.append("Semicolon must be followed by a newline.");
            push_diag(r, m);
        }
        let f = find_char(line, ';');
        let left = copy_range(line, 0, f);
        let tw = trailing(&left);
        if left.len() - tw > 0 && tw != 0 {
            let mut m = diag_prefix(file, ln as u128);
            m.append("Semicolon must not be precedeed by whitespaces.");
            push_diag(r, m);
        }
    } else if n >= 2 {
        if !contains_sub(line, " for") || n > 2 {
            let mut m = diag_prefix(file, ln as u128);
            m.append("Too much semicolon found on this line.");
            push_diag(r, m);
        }
    }
    proof {
        assert(r.deep_view() =~= pre + ind_semicolon_line(file@, line@, ln as nat));
    }
}

impl Semicolon {
    pub fn new() -> (r: Semicolon) {
        Semicolon {  }
    }

    pub fn verify(&self, filename: &str, content: &str) -> (r: Vec<String>)
        ensures
            r.deep_view() == ind_semicolon_diags(filename@, content@),
    {
        let lines = split_lines(content);
        let ghost l = lines.deep_view();
        let mut r: Vec<String> = Vec::new();
        let mut i: usize = 0;
        proof {
            assert(l.skip(0) =~= l);
            assert(r.deep_view() =~= Seq::<Seq<char>>::empty());
            assert(r.deep_view() + ind_semicolon_from(filename@, l, 1) =~= ind_semicolon_from(
                filename@,
                l,
                1,
            ));
        }
        while i < lines.len()
            invariant
                0 <= i <= lines@.len(),
                l == lines.deep_view(),
                lines@.len() == l.len(),
                ind_semicolon_diags(filename@, content@) == r.deep_view() + ind_semicolon_from(
                    filename@,
                    l.skip(i as int),
                    (i + 1) as nat,
                ),
            decreases lines@.len() - i,
        {
            let line = &lines[i];
            proof {
                assert(l.skip(i as int)[0] =~= line@);
                assert(l.skip(i as int).drop_first() =~= l.skip(i + 1));
            }
            let ghost pre = r.deep_view();
            emit_ind_semicolon(&mut r, filename, line, i + 1);
            proof {
                let mid = ind_semicolon_line(filename@, line@, (i + 1) as nat);
                let rest = ind_semicolon_from(filename@, l.skip(i + 1), (i + 2) as nat);
                assert((pre + mid) + rest =~= pre + (mid + rest));
            }
            i = i + 1;
        }
        proof {
            assert(l.skip(i as int).len() == 0);
            assert(r.deep_view() + ind_semicolon_from(filename@, l.skip(i as int), (i + 1) as nat)
                =~= r.deep_view());
        }
        r
    }
}

impl Rule for Semicolon {
    fn verify(&self, filename: &str, content: &str) -> Vec<String> {
        Semicolon::verify(self, filename, content)
    }
}

// ---------------------------------------------------------------------------
// Comma
// ---------------------------------------------------------------------------

/// Flags comma spacing, skipping lines without commas; such lines do not
/// advance this rule's line counter.
pub struct Comma {}

pub open spec fn ind_comma_from(file: Seq<char>, lines: Seq<Seq<char>>, ln: nat) -> Seq<Seq<char>>
    decreases lines.len(),
{
    if lines.len() == 0 {
        Seq::empty()
    } else if char_count(lines[0], ',') == 0 {
        ind_comma_from(file, lines.drop_first(), ln)
    } else {
        crate::space::comma_line(file, lines[0], ln) + ind_comma_from(
            file,
            lines.drop_first(),
            ln + 1,
        )
    }
}

/// Every diagnostic of the comma rule, in scan order.
pub open spec fn ind_comma_diags(file: Seq<char>, content: Seq<char>) -> Seq<Seq<char>> {
    ind_comma_from(file, line_seq(content), 1)
}

impl Comma {
    pub fn new() -> (r: Comma) {
        Comma {  }
    }

    pub fn verify(&self, filename: &str, content: &str) -> (r: Vec<String>)
        ensures
            r.deep_view() == ind_comma_diags(filename@, content@),
    {
        let lines = split_lines(content);
        let ghost l = lines.deep_view();
        let mut r: Vec<String> = Vec::new();
        let mut i: usize = 0;
        let mut seen: usize = 0;
        proof {
            assert(l.skip(0) =~= l);
            assert(r.deep_view() =~= Seq::<Seq<char>>::empty());
            assert(r.deep_view() + ind_comma_from(filename@, l, 1) =~= ind_comma_from(
                filename@,
                l,
                1,
            ));
        }
        while i < lines.len()
            invariant
                0 <= i <= lines@.len(),
                seen <= i,
                l == lines.deep_view(),
                lines@.len() == l.len(),
                ind_comma_diags(filename@, content@) == r.deep_view() + ind_comma_from(
                    filename@,
                    l.skip(i as int),
                    (seen + 1) as nat,
                ),
            decreases lines@.len() - i,
        {
            let line = &lines[i];
            proof {
                assert(l.skip(i as int)[0] =~= line@);
                assert(l.skip(i as int).drop_first() =~= l.skip(i + 1));
            }
            let k = count_char(line, ',');
            if k > 0 {
                let ghost pre = r.deep_view();
                crate::space::emit_comma(&mut r, filename, line, seen + 1);
                proof {
                    let mid = crate::space::comma_line(filename@, line@, (seen + 1) as nat);
                    let rest = ind_comma_from(filename@, l.skip(i + 1), (seen + 2) as nat);
                    assert((pre + mid) + rest =~= pre + (mid + rest));
                }
                seen = seen + 1;
            }
            i = i + 1;
        }
        proof {
            assert(l.skip(i as int).len() == 0);
            assert(r.deep_view() + ind_comma_from(filename@, l.skip(i as int), (seen + 1) as nat)
                =~= r.deep_view());
        }
        r
    }
}

impl Rule for Comma {
    fn verify(&self, filename: &str, content: &str) -> Vec<String> {
        Comma::verify(self, filename, content)
    }
}

// ---------------------------------------------------------------------------
// StructureFieldsIndentation
// ---------------------------------------------------------------------------

/// Checks that the fields of a struct or union declaration all start in the
/// same column, taken from the first field-like line seen.
pub struct StructureFieldsIndentation {}

/// The scan state of the structure-fields rule: whether the scan stands in a
/// structure, whether that structure came with `typedef`, the brace level,
/// and the field column fixed so far (zero while unset).
pub ghost struct SfiState {
    pub ins: bool,
    pub htd: bool,
    pub lvl: nat,
    pub ind: nat,
}

/// A line on which the field column is measured: not a brace line, not blank,
/// not the closing line of a plain structure, and not the `typedef` line
/// itself unless it holds more than two words.
pub open spec fn sfi_measures(line: Seq<char>, htd: bool) -> bool {
    &&& words(line).len() > 0
    &&& !has_char(line, '{')
    &&& trim(line).len() > 0
    &&& !(!htd && has_char(line, '}'))
    &&& (!has_sub(line, "typedef"@) || words(line).len() > 2)
}

/// The column where the last word of the line starts, counted from the left.
pub open spec fn sfi_column(line: Seq<char>) -> int {
    line.len() - words(line).last().len()
}

/// A line that opens a structure declaration at the top level.
pub open spec fn sfi_opens(line: Seq<char>, lvl: nat) -> bool {
    &&& lvl <= 0
    &&& (has_sub(line, "struct"@) || has_sub(line, "union"@))
    &&& !(has_sub(line, "("@) || has_sub(line, ","@) || has_sub(line, ")"@) || begins(
        trim_start(line),
        "//"@,
    ) || begins(trim_start(line), "**"@))
}

/// One step of the structure-fields scan.
pub open spec fn sfi_step(file: Seq<char>, line: Seq<char>, ln: nat, st: SfiState) -> (Seq<
    Seq<char>,
>, SfiState) {
    let lvl1 = if has_char(line, '{') {
        st.lvl + 1
    } else {
        st.lvl
    };
    let lvl2 = if has_char(line, '}') && lvl1 > 0 {
        (lvl1 - 1) as nat
    } else {
        lvl1
    };
    let ins1 = if sfi_opens(line, lvl2) {
        true
    } else {
        st.ins
    };
    let htd1 = if sfi_opens(line, lvl2) {
        has_sub(line, "typedef"@)
    } else {
        st.htd
    };
    if ins1 {
        let measured = sfi_measures(line, htd1);
        let cur = sfi_column(line);
        let diags: Seq<Seq<char>> = if measured && st.ind > 0 && cur != st.ind {
            seq![
                loc(file, ln) + "Wrong field indentation. Expected "@ + decimal(st.ind) + " got "@
                    + decimal(if cur >= 0 {
                    cur as nat
                } else {
                    0
                }) + "."@,
            ]
        } else {
            Seq::empty()
        };
        let ind1 = if measured && st.ind <= 0 && cur >= 0 {
            cur as nat
        } else {
            st.ind
        };
        let closed = has_char(line, '}');
        (
            diags,
            SfiState {
                ins: !closed && ins1,
                htd: htd1,
                lvl: lvl2,
                ind: if closed {
                    0
                } else {
                    ind1
                },
            },
        )
    } else {
        (Seq::empty(), SfiState { ins: ins1, htd: htd1, lvl: lvl2, ind: st.ind })
    }
}

pub open spec fn sfi_from(file: Seq<char>, lines: Seq<Seq<char>>, ln: nat, st: SfiState) -> Seq<
    Seq<char>,
>
    decreases lines.len(),
{
    if lines.len() == 0 {
        Seq::empty()
    } else {
        sfi_step(file, lines[0], ln, st).0 + sfi_from(
            file,
            lines.drop_first(),
            ln + 1,
            sfi_step(file, lines[0], ln, st).1,
        )
    }
}

/// Every diagnostic of the structure-fields rule, in line order.
pub open spec fn sfi_diags(file: Seq<char>, content: Seq<char>) -> Seq<Seq<char>> {
    sfi_from(
        file,
        line_seq(content),
        1,
        SfiState { ins: false, htd: false, lvl: 0, ind: 0 },
    )
}

impl StructureFieldsIndentation {
    pub fn new() -> (r: StructureFieldsIndentation) {
        StructureFieldsIndentation {  }
    }

    #[verifier::rlimit(50)]
    pub fn verify(&self, filename: &str, content: &str) -> (r: Vec<String>)
        ensures
            r.deep_view() == sfi_diags(filename@, content@),
    {
        let lines = split_lines(content);
        let ghost l = lines.deep_view();
        let mut r: Vec<String> = Vec::new();
        let mut i: usize = 0;
        let mut ins: bool = false;
        let mut htd: bool = false;
        let mut lvl: usize = 0;
        let mut ind: usize = 0;
        proof {
            assert(l.skip(0) =~= l);
            assert(r.deep_view() =~= Seq::<Seq<char>>::empty());
            assert(r.deep_view() + sfi_from(
                filename@,
                l,
                1,
                SfiState { ins: false, htd: false, lvl: 0, ind: 0 },
            ) =~= sfi_from(filename@, l, 1, SfiState { ins: false, htd: false, lvl: 0, ind: 0 }));
        }
        while i < lines.len()
            invariant
                0 <= i <= lines@.len(),
                l == lines.deep_view(),
                lines@.len() == l.len(),
                lvl <= i,
                sfi_diags(filename@, content@) == r.deep_view() + sfi_from(
                    filename@,
                    l.skip(i as int),
                    (i + 1) as nat,
                    SfiState { ins: ins, htd: htd, lvl: lvl as nat, ind: ind as nat },
                ),
            decreases lines@.len() - i,
        {
            let ghost st = SfiState { ins: ins, htd: htd, lvl: lvl as nat, ind: ind as nat };
            let line = &lines[i];
            proof {
                assert(l.skip(i as int)[0] =~= line@);
                assert(l.skip(i as int).drop_first() =~= l.skip(i + 1));
            }
            let ghost pre = r.deep_view();
            if contains_char(line, '{') {
                lvl = lvl + 1;
            }
            if contains_char(line, '}') && lvl > 0 {
                lvl = lvl - 1;
            }
            let lw = leading(line);
            let opens = lvl == 0 && (contains_sub(line, "struct") || contains_sub(line, "union"))
                && !(contains_sub(line, "(") || contains_sub(line, ",") || contains_sub(line, ")")
                || trimmed_begins_with(line, "//") || trimmed_begins_with(line, "**"));
            if opens {
                ins = true;
                htd = contains_sub(line, "typedef");
            }
            if ins {
                let ws = crate::text::split_words(line);
                let tl = trim_len(line);
                let measured = ws.len() > 0 && !contains_char(line, '{') && tl > 0 && !(!htd
                    && contains_char(line, '}')) && (!contains_sub(line, "typedef") || ws.len()
                    > 2);
                if measured {
                    let lastw = &ws[ws.len() - 1];
                    proof {
                        crate::text::lemma_words_bound(line@);
                        assert(ws.deep_view()[ws@.len() - 1] =~= lastw@);
                        assert(words(line@).last() == lastw@);
                    }
                    let cur = line.len() - lastw.len();
                    if ind > 0 && cur != ind {
                        let mut m = diag_prefix(filename, (i + 1) as u128);
                        m.append("Wrong field indentation. Expected ");
                        crate::text::append_decimal(&mut m, ind as u128);
                        m.append(" got ");
                        crate::text::append_decimal(&mut m, cur as u128);
                        m.append(".");
                        proof {
                            assert(m@ =~= loc(filename@, (i + 1) as nat)
                                + "Wrong field indentation. Expected "@ + decimal(ind as nat)
                                + " got "@ + decimal(cur as nat) + "."@);
                        }
                        push_diag(&mut r, m);
                    } else if ind == 0 {
                        ind = cur;
                    }
                }
                if contains_char(line, '}') {
                    ins = false;
                    ind = 0;
                }
            }
            proof {
                let (fe, st2) = sfi_step(filename@, line@, (i + 1) as nat, st);
                assert(SfiState { ins: ins, htd: htd, lvl: lvl as nat, ind: ind as nat } == st2);
                assert(r.deep_view() =~= pre + fe);
                let rest = sfi_from(filename@, l.skip(i + 1), (i + 2) as nat, st2);
                assert((pre + fe) + rest =~= pre + (fe + rest));
            }
            i = i + 1;
        }
        proof {
            assert(l.skip(i as int).len() == 0);
            assert(r.deep_view() + sfi_from(
                filename@,
                l.skip(i as int),
                (i + 1) as nat,
                SfiState { ins: ins, htd: htd, lvl: lvl as nat, ind: ind as nat },
            ) =~= r.deep_view());
        }
        r
    }
}

/// Length of the line once trimmed on both sides.
pub(crate) fn trim_len(line: &Vec<char>) -> (n: usize)
    ensures
        n == trim(line@).len(),
{
    let lw = leading(line);
    if lw == line.len() {
        proof {
            assert(trim_start(line@).len() == 0);
            assert(trim(line@).len() == 0);
        }
        0
    } else {
        let ghost t = trim_start(line@);
        let n = line.len();
        let mut j: usize = n;
        proof {
            crate::text::lemma_leading_spaces_bound(line@);
            assert(forall|k: int| 0 <= k < t.len() ==> t[k] == line@[lw + k]);
        }
        let mut tw: usize = 0;
        while j > lw && space(line[j - 1])
            invariant
                n == line@.len(),
                lw <= j <= line@.len(),
                lw == leading_spaces(line@),
                lw < line@.len(),
                t == trim_start(line@),
                tw == line@.len() - j,
                forall|k: int| j <= k < line@.len() ==> is_space(line@[k]),
            decreases j,
        {
            j = j - 1;
            tw = tw + 1;
        }
        proof {
            assert(forall|k: int| 0 <= k < t.len() ==> t[k] == line@[lw + k]);
            assert(forall|k: int| t.len() - tw <= k < t.len() ==> is_space(t[k]));
            if j > lw {
                assert(!is_space(line@[j - 1]));
                assert(t[j - 1 - lw] == line@[j - 1]);
                crate::text::lemma_trailing_spaces_at(t, tw as int);
            } else {
                crate::text::lemma_leading_spaces_bound(line@);
                assert(!is_space(line@[lw as int]));
                assert(t[0] == line@[lw as int]);
                crate::text::lemma_trailing_spaces_at(t, tw as int);
            }
            assert(trim(line@).len() == t.len() - tw);
        }
        j - lw
    }
}

impl Rule for StructureFieldsIndentation {
    fn verify(&self, filename: &str, content: &str) -> Vec<String> {
        StructureFieldsIndentation::verify(self, filename, content)
    }
}

} // verus!
