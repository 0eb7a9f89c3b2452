//! Laws of the block-depth verifier, stated over its findings: diagnostics
//! are deterministic and line-ascending, one-line regions span exactly one
//! line, switch cases recover at the next label or closing brace, and
//! changing only a line's indentation changes no other line's findings.

use vstd::prelude::*;

use crate::indentation::{
    break_head, case_head, closing_head, indentation_level_diags, one_line_trigger, opening_head,
    return_head, walk, Finding, FrameView, Region,
};
use crate::text::{leading_spaces, mulcap, trim_start};

verus! {


/// The findings that point anywhere but line `ln`.
pub open spec fn findings_off(evs: Seq<Finding>, ln: nat) -> Seq<Finding> {
    evs.filter(|f: Finding| f.line() != ln)
}



/// Two calls of the verifier on the same input give the same diagnostics:
/// the result is a pure function of the file name, the content and the unit.
pub proof fn lemma_verify_deterministic(
    d1: Seq<Seq<char>>,
    d2: Seq<Seq<char>>,
    file: Seq<char>,
    content: Seq<char>,
    unit: nat,
)
    requires
        d1 == indentation_level_diags(file, content, unit),
        d2 == indentation_level_diags(file, content, unit),
    ensures
        d1 == d2,
{
}

/// A one-line region checks exactly the one line it stands on against its own
/// depth, then returns to the enclosing region; nothing below that line is
/// consumed by it.
pub proof fn lemma_one_line_region(
    lines: Seq<Seq<char>>,
    pos: int,
    stack: Seq<FrameView>,
    unit: nat,
)
    requires
        0 <= pos < lines.len(),
        stack.len() >= 1,
        stack.last().kind is OneLine,
    ensures
        walk(lines, pos, stack, unit) == (if leading_spaces(lines[pos]) != mulcap(
            stack.last().depth,
            unit,
        ) {
            seq![
                Finding::WrongIndent {
                    ln: (pos + 1) as nat,
                    expected: mulcap(stack.last().depth, unit),
                    got: leading_spaces(lines[pos]),
                },
            ]
        } else {
            Seq::<Finding>::empty()
        }) + walk(lines, pos + 1, stack.drop_last(), unit),
{
}

/// A switch-case region without a terminator still ends, without consuming
/// the line, at the next `case` or `default` label or at a closing brace:
/// the enclosing block sees that line, so the depth is never miscounted.
pub proof fn lemma_switch_case_recovery(
    lines: Seq<Seq<char>>,
    pos: int,
    stack: Seq<FrameView>,
    unit: nat,
)
    requires
        0 <= pos < lines.len(),
        stack.len() >= 1,
        stack.last().kind is SwitchCase,
        case_head(lines[pos]) || closing_head(lines[pos]),
    ensures
        walk(lines, pos, stack, unit) == walk(lines, pos, stack.drop_last(), unit),
{
}

/// A `case` or `default` label inside an ordinary block opens a switch-case
/// region one level deeper than the block, after checking the label's own
/// line at the block's depth.
pub proof fn lemma_case_label_opens_region(
    lines: Seq<Seq<char>>,
    pos: int,
    stack: Seq<FrameView>,
    unit: nat,
)
    requires
        0 <= pos < lines.len(),
        stack.len() >= 1,
        stack.last().kind is Basic,
        case_head(lines[pos]),
    ensures
        walk(lines, pos, stack, unit) == (if lines[pos].len() != 0 && leading_spaces(lines[pos])
            != mulcap(stack.last().depth, unit) {
            seq![
                Finding::WrongIndent {
                    ln: (pos + 1) as nat,
                    expected: mulcap(stack.last().depth, unit),
                    got: leading_spaces(lines[pos]),
                },
            ]
        } else {
            Seq::<Finding>::empty()
        }) + walk(
            lines,
            pos + 1,
            stack.push(
                FrameView { kind: Region::SwitchCase, depth: (stack.last().depth + 1) as nat },
            ),
            unit,
        ),
{
    let t = trim_start(lines[pos]);
    proof_case_head_excludes(t);
}

/// A label line is neither a brace line, a control keyword, nor blank.
proof fn proof_case_head_excludes(t: Seq<char>)
    requires
        begins_any_label(t),
    ensures
        !crate::text::begins(t, "{"@),
        !crate::text::begins(t, "}"@),
        !crate::text::begins(t, "if"@),
        !crate::text::begins(t, "else"@),
        !crate::text::begins(t, "switch"@),
        !crate::text::begins(t, "while"@),
        !crate::text::begins(t, "for"@),
{
    reveal_strlit("case");
    reveal_strlit("default");
    reveal_strlit("{");
    reveal_strlit("}");
    reveal_strlit("if");
    reveal_strlit("else");
    reveal_strlit("switch");
    reveal_strlit("while");
    reveal_strlit("for");
    if crate::text::begins(t, "case"@) {
        assert(t.subrange(0, 4)[0] == t[0]);
        assert(t[0] == 'c');
    } else {
        assert(t.subrange(0, 7)[0] == t[0]);
        assert(t[0] == 'd');
    }
    assert forall|p: Seq<char>|
        p.len() >= 1 && p[0] != t[0] implies !crate::text::begins(t, p) by {
        if crate::text::begins(t, p) {
            assert(t.subrange(0, p.len() as int)[0] == t[0]);
        }
    }
}

/// What [`case_head`] says, spelled over the trimmed line.
pub open spec fn begins_any_label(t: Seq<char>) -> bool {
    crate::text::begins(t, "case"@) || crate::text::begins(t, "default"@)
}





proof fn lemma_off_distributes(a: Seq<Finding>, b: Seq<Finding>, ln: nat)
    ensures
        findings_off(a + b, ln) == findings_off(a, ln) + findings_off(b, ln),
{
    broadcast use vstd::seq_lib::group_seq_lib_default;

}


proof fn lemma_off_all_at(evs: Seq<Finding>, ln: nat)
    requires
        forall|i: int| 0 <= i < evs.len() ==> (#[trigger] evs[i]).line() == ln,
    ensures
        findings_off(evs, ln) == Seq::<Finding>::empty(),
    decreases evs.len(),
{
    reveal(Seq::filter);
    if evs.len() > 0 {
        assert(evs[evs.len() - 1].line() == ln);
        assert(forall|i: int|
            0 <= i < evs.drop_last().len() ==> #[trigger] evs.drop_last()[i] == evs[i]);
        lemma_off_all_at(evs.drop_last(), ln);
    }
}


/// The premises of the single-line mutation laws: the two inputs have the
/// same lines but for line `k`, whose trimmed text is kept and which is blank
/// in neither version.
pub open spec fn indent_mutation(l1: Seq<Seq<char>>, l2: Seq<Seq<char>>, k: int) -> bool {
    &&& l1.len() == l2.len()
    &&& 0 <= k < l1.len()
    &&& (forall|j: int| 0 <= j < l1.len() && j != k ==> l1[j] == l2[j])
    &&& trim_start(l1[k]) == trim_start(l2[k])
    &&& l1[k].len() > 0
    &&& l2[k].len() > 0
}

/// Changing only one line's leading whitespace leaves every finding that
/// points at any other line exactly as it was: the scan passes through the
/// same regions, so the change cannot cascade.
pub proof fn lemma_indent_mutation_elsewhere(
    l1: Seq<Seq<char>>,
    l2: Seq<Seq<char>>,
    k: int,
    pos: int,
    stack: Seq<FrameView>,
    unit: nat,
)
    requires
        indent_mutation(l1, l2, k),
    ensures
        findings_off(walk(l2, pos, stack, unit), (k + 1) as nat) == findings_off(
            walk(l1, pos, stack, unit),
            (k + 1) as nat,
        ),
    decreases l1.len() - pos, stack.len(),
{
    let ln = (k + 1) as nat;
    let w1 = walk(l1, pos, stack, unit);
    let w2 = walk(l2, pos, stack, unit);
    if pos < 0 || pos > l1.len() || stack.len() == 0 {
        assert(w1 == Seq::<Finding>::empty());
        assert(w2 == Seq::<Finding>::empty());
    } else if pos == l1.len() {
        assert(w2 == w1);
    } else {
        let line1 = l1[pos];
        let line2 = l2[pos];
        if pos != k {
            assert(line2 == line1);
        }
        assert(trim_start(line2) == trim_start(line1));
        if pos + 1 < l1.len() {
            if pos + 1 != k {
                assert(l2[pos + 1] == l1[pos + 1]);
            }
            assert(trim_start(l2[pos + 1]) == trim_start(l1[pos + 1]));
        }
        assert(one_line_trigger(l2, pos) == one_line_trigger(l1, pos));
        let top = stack.last();
        let lnhere = (pos + 1) as nat;
        match top.kind {
            Region::OneLine => {
                let evs1: Seq<Finding> = if leading_spaces(line1) != mulcap(top.depth, unit) {
                    seq![
                        Finding::WrongIndent {
                            ln: lnhere,
                            expected: mulcap(top.depth, unit),
                            got: leading_spaces(line1),
                        },
                    ]
                } else {
                    Seq::empty()
                };
                let evs2: Seq<Finding> = if leading_spaces(line2) != mulcap(top.depth, unit) {
                    seq![
                        Finding::WrongIndent {
                            ln: lnhere,
                            expected: mulcap(top.depth, unit),
                            got: leading_spaces(line2),
                        },
                    ]
                } else {
                    Seq::empty()
                };
                let rest1 = walk(l1, pos + 1, stack.drop_last(), unit);
                let rest2 = walk(l2, pos + 1, stack.drop_last(), unit);
                assert(w1 == evs1 + rest1);
                assert(w2 == evs2 + rest2);
                lemma_indent_mutation_elsewhere(l1, l2, k, pos + 1, stack.drop_last(), unit);
                lemma_off_distributes(evs1, rest1, ln);
                lemma_off_distributes(evs2, rest2, ln);
                if pos == k {
                    lemma_off_all_at(evs1, ln);
                    lemma_off_all_at(evs2, ln);
                } else {
                    assert(evs2 == evs1);
                }
            },
            Region::SwitchCase => {
                if case_head(line1) || closing_head(line1) {
                    assert(w1 == walk(l1, pos, stack.drop_last(), unit));
                    assert(w2 == walk(l2, pos, stack.drop_last(), unit));
                    lemma_indent_mutation_elsewhere(l1, l2, k, pos, stack.drop_last(), unit);
                } else {
                    let evs1: Seq<Finding> = if line1.len() != 0 && leading_spaces(line1) != mulcap(
                        top.depth,
                        unit,
                    ) {
                        seq![
                            Finding::WrongIndent {
                                ln: lnhere,
                                expected: mulcap(top.depth, unit),
                                got: leading_spaces(line1),
                            },
                        ]
                    } else {
                        Seq::empty()
                    };
                    let evs2: Seq<Finding> = if line2.len() != 0 && leading_spaces(line2) != mulcap(
                        top.depth,
                        unit,
                    ) {
                        seq![
                            Finding::WrongIndent {
                                ln: lnhere,
                                expected: mulcap(top.depth, unit),
                                got: leading_spaces(line2),
                            },
                        ]
                    } else {
                        Seq::empty()
                    };
                    let stack2 = if one_line_trigger(l1, pos) {
                        stack.push(
                            FrameView { kind: Region::OneLine, depth: (top.depth + 1) as nat },
                        )
                    } else if break_head(line1) {
                        stack.drop_last()
                    } else if return_head(line1) && pos + 1 < l1.len() && !break_head(
                        l1[pos + 1],
                    ) {
                        stack.drop_last()
                    } else {
                        stack
                    };
                    if pos + 1 < l1.len() {
                        assert(break_head(l2[pos + 1]) == break_head(l1[pos + 1]));
                    }
                    let rest1 = walk(l1, pos + 1, stack2, unit);
                    let rest2 = walk(l2, pos + 1, stack2, unit);
                    assert(w1 == evs1 + rest1);
                    assert(w2 == evs2 + rest2);
                    lemma_indent_mutation_elsewhere(l1, l2, k, pos + 1, stack2, unit);
                    lemma_off_distributes(evs1, rest1, ln);
                    lemma_off_distributes(evs2, rest2, ln);
                    if pos == k {
                        lemma_off_all_at(evs1, ln);
                        lemma_off_all_at(evs2, ln);
                    } else {
                        assert(evs2 == evs1);
                    }
                }
            },
            Region::Basic => {
                let closing = closing_head(line1);
                let expected: nat = if closing && top.depth > 0 {
                    mulcap((top.depth - 1) as nat, unit)
                } else {
                    mulcap(top.depth, unit)
                };
                let evs1: Seq<Finding> = (if closing && top.depth == 0 {
                    seq![Finding::UnexpectedBrace { ln: lnhere }]
                } else {
                    Seq::empty()
                }) + (if line1.len() != 0 && leading_spaces(line1) != expected {
                    seq![
                        Finding::WrongIndent {
                            ln: lnhere,
                            expected: expected,
                            got: leading_spaces(line1),
                        },
                    ]
                } else {
                    Seq::empty()
                });
                let evs2: Seq<Finding> = (if closing && top.depth == 0 {
                    seq![Finding::UnexpectedBrace { ln: lnhere }]
                } else {
                    Seq::empty()
                }) + (if line2.len() != 0 && leading_spaces(line2) != expected {
                    seq![
                        Finding::WrongIndent {
                            ln: lnhere,
                            expected: expected,
                            got: leading_spaces(line2),
                        },
                    ]
                } else {
                    Seq::empty()
                });
                let stack2 = if one_line_trigger(l1, pos) {
                    stack.push(FrameView { kind: Region::OneLine, depth: (top.depth + 1) as nat })
                } else if closing {
                    if top.depth > 0 {
                        stack.drop_last()
                    } else {
                        stack
                    }
                } else if opening_head(line1) {
                    stack.push(FrameView { kind: Region::Basic, depth: (top.depth + 1) as nat })
                } else if case_head(line1) {
                    stack.push(
                        FrameView { kind: Region::SwitchCase, depth: (top.depth + 1) as nat },
                    )
                } else {
                    stack
                };
                let rest1 = walk(l1, pos + 1, stack2, unit);
                let rest2 = walk(l2, pos + 1, stack2, unit);
                assert(w1 == evs1 + rest1);
                assert(w2 == evs2 + rest2);
                lemma_indent_mutation_elsewhere(l1, l2, k, pos + 1, stack2, unit);
                lemma_off_distributes(evs1, rest1, ln);
                lemma_off_distributes(evs2, rest2, ln);
                if pos == k {
                    assert(forall|i: int|
                        0 <= i < evs1.len() ==> (#[trigger] evs1[i]).line() == ln);
                    assert(forall|i: int|
                        0 <= i < evs2.len() ==> (#[trigger] evs2[i]).line() == ln);
                    lemma_off_all_at(evs1, ln);
                    lemma_off_all_at(evs2, ln);
                } else {
                    assert(evs2 == evs1);
                }
            },
        }
    }
}


/// Every finding of a scan that starts at `pos` points past line `pos`.
pub proof fn lemma_findings_ahead(lines: Seq<Seq<char>>, pos: int, stack: Seq<FrameView>, unit: nat)
    ensures
        forall|i: int|
            0 <= i < walk(lines, pos, stack, unit).len() ==> (#[trigger] walk(
                lines,
                pos,
                stack,
                unit,
            )[i]).line() > pos,
    decreases lines.len() - pos, stack.len(),
{
    let w = walk(lines, pos, stack, unit);
    if pos < 0 || pos > lines.len() || stack.len() == 0 {
    } else if pos == lines.len() {
    } else {
        let top = stack.last();
        match top.kind {
            Region::OneLine => {
                lemma_findings_ahead(lines, pos + 1, stack.drop_last(), unit);
                let rest = walk(lines, pos + 1, stack.drop_last(), unit);
                assert forall|i: int| 0 <= i < w.len() implies (#[trigger] w[i]).line() > pos by {
                    if i >= w.len() - rest.len() {
                        assert(w[i] == rest[i - (w.len() - rest.len())]);
                    }
                }
            },
            Region::SwitchCase => {
                if case_head(lines[pos]) || closing_head(lines[pos]) {
                    lemma_findings_ahead(lines, pos, stack.drop_last(), unit);
                    assert forall|i: int| 0 <= i < w.len() implies (#[trigger] w[i]).line()
                        > pos by {
                        assert(w[i] == walk(lines, pos, stack.drop_last(), unit)[i]);
                    }
                } else {
                    let stack2 = if one_line_trigger(lines, pos) {
                        stack.push(
                            FrameView { kind: Region::OneLine, depth: (top.depth + 1) as nat },
                        )
                    } else if break_head(lines[pos]) {
                        stack.drop_last()
                    } else if return_head(lines[pos]) && pos + 1 < lines.len() && !break_head(
                        lines[pos + 1],
                    ) {
                        stack.drop_last()
                    } else {
                        stack
                    };
                    lemma_findings_ahead(lines, pos + 1, stack2, unit);
                    let rest = walk(lines, pos + 1, stack2, unit);
                    assert forall|i: int| 0 <= i < w.len() implies (#[trigger] w[i]).line()
                        > pos by {
                        if i >= w.len() - rest.len() {
                            assert(w[i] == rest[i - (w.len() - rest.len())]);
                        }
                    }
                }
            },
            Region::Basic => {
                let closing = closing_head(lines[pos]);
                let stack2 = if one_line_trigger(lines, pos) {
                    stack.push(FrameView { kind: Region::OneLine, depth: (top.depth + 1) as nat })
                } else if closing {
                    if top.depth > 0 {
                        stack.drop_last()
                    } else {
                        stack
                    }
                } else if opening_head(lines[pos]) {
                    stack.push(FrameView { kind: Region::Basic, depth: (top.depth + 1) as nat })
                } else if case_head(lines[pos]) {
                    stack.push(
                        FrameView { kind: Region::SwitchCase, depth: (top.depth + 1) as nat },
                    )
                } else {
                    stack
                };
                lemma_findings_ahead(lines, pos + 1, stack2, unit);
                let rest = walk(lines, pos + 1, stack2, unit);
                assert forall|i: int| 0 <= i < w.len() implies (#[trigger] w[i]).line() > pos by {
                    if i >= w.len() - rest.len() {
                        assert(w[i] == rest[i - (w.len() - rest.len())]);
                    }
                }
            },
        }
    }
}

/// The findings of a whole scan come in line-ascending order.
pub proof fn lemma_findings_ascending(
    lines: Seq<Seq<char>>,
    pos: int,
    stack: Seq<FrameView>,
    unit: nat,
)
    ensures
        forall|i: int, j: int|
            0 <= i <= j < walk(lines, pos, stack, unit).len() ==> (#[trigger] walk(
                lines,
                pos,
                stack,
                unit,
            )[i]).line() <= (#[trigger] walk(lines, pos, stack, unit)[j]).line(),
    decreases lines.len() - pos, stack.len(),
{
    let w = walk(lines, pos, stack, unit);
    if pos < 0 || pos > lines.len() || stack.len() == 0 {
    } else if pos == lines.len() {
    } else {
        let top = stack.last();
        match top.kind {
            Region::OneLine => {
                lemma_findings_ascending(lines, pos + 1, stack.drop_last(), unit);
                lemma_findings_ahead(lines, pos + 1, stack.drop_last(), unit);
                let rest = walk(lines, pos + 1, stack.drop_last(), unit);
                assert forall|i: int, j: int| 0 <= i <= j < w.len() implies (#[trigger] w[i]).line()
                    <= (#[trigger] w[j]).line() by {
                    let head = w.len() - rest.len();
                    if i >= head {
                        assert(w[i] == rest[i - head]);
                    }
                    if j >= head {
                        assert(w[j] == rest[j - head]);
                    }
                }
            },
            Region::SwitchCase => {
                if case_head(lines[pos]) || closing_head(lines[pos]) {
                    lemma_findings_ascending(lines, pos, stack.drop_last(), unit);
                    assert forall|i: int, j: int|
                        0 <= i <= j < w.len() implies (#[trigger] w[i]).line() <= (
                    #[trigger] w[j]).line() by {
                        assert(w[i] == walk(lines, pos, stack.drop_last(), unit)[i]);
                        assert(w[j] == walk(lines, pos, stack.drop_last(), unit)[j]);
                    }
                } else {
                    let stack2 = if one_line_trigger(lines, pos) {
                        stack.push(
                            FrameView { kind: Region::OneLine, depth: (top.depth + 1) as nat },
                        )
                    } else if break_head(lines[pos]) {
                        stack.drop_last()
                    } else if return_head(lines[pos]) && pos + 1 < lines.len() && !break_head(
                        lines[pos + 1],
                    ) {
                        stack.drop_last()
                    } else {
                        stack
                    };
                    lemma_findings_ascending(lines, pos + 1, stack2, unit);
                    lemma_findings_ahead(lines, pos + 1, stack2, unit);
                    let rest = walk(lines, pos + 1, stack2, unit);
                    assert forall|i: int, j: int|
                        0 <= i <= j < w.len() implies (#[trigger] w[i]).line() <= (
                    #[trigger] w[j]).line() by {
                        let head = w.len() - rest.len();
                        if i >= head {
                            assert(w[i] == rest[i - head]);
                        }
                        if j >= head {
                            assert(w[j] == rest[j - head]);
                        }
                    }
                }
            },
            Region::Basic => {
                let closing = closing_head(lines[pos]);
                let stack2 = if one_line_trigger(lines, pos) {
                    stack.push(FrameView { kind: Region::OneLine, depth: (top.depth + 1) as nat })
                } else if closing {
                    if top.depth > 0 {
                        stack.drop_last()
                    } else {
                        stack
                    }
                } else if opening_head(lines[pos]) {
                    stack.push(FrameView { kind: Region::Basic, depth: (top.depth + 1) as nat })
                } else if case_head(lines[pos]) {
                    stack.push(
                        FrameView { kind: Region::SwitchCase, depth: (top.depth + 1) as nat },
                    )
                } else {
                    stack
                };
                lemma_findings_ascending(lines, pos + 1, stack2, unit);
                lemma_findings_ahead(lines, pos + 1, stack2, unit);
                let rest = walk(lines, pos + 1, stack2, unit);
                assert forall|i: int, j: int| 0 <= i <= j < w.len() implies (#[trigger] w[i]).line()
                    <= (#[trigger] w[j]).line() by {
                    let head = w.len() - rest.len();
                    if i >= head {
                        assert(w[i] == rest[i - head]);
                    }
                    if j >= head {
                        assert(w[j] == rest[j - head]);
                    }
                }
            },
        }
    }
}

} // verus!
