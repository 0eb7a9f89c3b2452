//! Control-structure rules: spacing after keywords, terminator punctuation,
//! enum-only switches, default cases and case terminators.

use vstd::prelude::*;
use vstd::string::*;

use crate::Rule;
use crate::text::{
    begins, contains_char, contains_numeric, contains_sub, diag_prefix, has_char, has_sub,
    is_numeric_char, line_seq, loc, push_diag, remove_all, remove_occurrences, split_lines,
    to_upper, trim_start, trimmed_begins_with, upper_of, chars_equal,
};

verus! {

// ---------------------------------------------------------------------------
// ControlStructuresIndentation
// ---------------------------------------------------------------------------

/// Flags control keywords not followed by exactly one space before their
/// parenthesis.
pub struct ControlStructuresIndentation {}

/// The diagnostic for one keyword on one line: the line starts with the
/// keyword and holds a parenthesis, but not the keyword followed by ` (`.
pub open spec fn cs_one(
    file: Seq<char>,
    line: Seq<char>,
    ln: nat,
    kw: Seq<char>,
    kwsp: Seq<char>,
) -> Seq<Seq<char>> {
    if begins(trim_start(line), kw) && has_sub(line, "("@) && !has_sub(line, kwsp) {
        seq![loc(file, ln) + kw + " must be followed by ' ('."@]
    } else {
        Seq::empty()
    }
}

pub open spec fn cs_line(file: Seq<char>, line: Seq<char>, ln: nat) -> Seq<Seq<char>> {
    cs_one(file, line, ln, "else if"@, "else if ("@) + cs_one(file, line, ln, "if"@, "if ("@)
        + cs_one(file, line, ln, "for"@, "for ("@) + cs_one(file, line, ln, "while"@, "while ("@)
        + cs_one(file, line, ln, "switch"@, "switch ("@) + cs_one(
        file,
        line,
        ln,
        "return"@,
        "return ("@,
    ) + cs_one(file, line, ln, "sizeof"@, "sizeof ("@)
}

pub open spec fn cs_from(file: Seq<char>, lines: Seq<Seq<char>>, ln: nat) -> Seq<Seq<char>>
    decreases lines.len(),
{
    if lines.len() == 0 {
        Seq::empty()
    } else {
        cs_line(file, lines[0], ln) + cs_from(file, lines.drop_first(), ln + 1)
    }
}

/// Every diagnostic of the keyword-spacing rule, in line order.
pub open spec fn cs_diags(file: Seq<char>, content: Seq<char>) -> Seq<Seq<char>> {
    cs_from(file, line_seq(content), 1)
}

/// Emits the diagnostic for one keyword, if due.
fn emit_cs_one(r: &mut Vec<String>, file: &str, line: &Vec<char>, ln: usize, kw: &str, kwsp: &str)
    ensures
        final(r).deep_view() == old(r).deep_view() + cs_one(file@, line@, ln as nat, kw@, kwsp@),
{
    let ghost pre = r.deep_view();
    if trimmed_begins_with(line, kw) && contains_sub(line, "(") && !contains_sub(line, kwsp) {
        let mut m = diag_prefix(file, ln as u128);
        m.append(kw);
        m.append(" must be followed by ' ('.");
        push_diag(r, m);
    }
    proof {
        assert(r.deep_view() =~= pre + cs_one(file@, line@, ln as nat, kw@, kwsp@));
    }
}

impl ControlStructuresIndentation {
    pub fn new() -> (r: ControlStructuresIndentation) {
        ControlStructuresIndentation {  }
    }

    #[verifier::rlimit(50)]
    pub fn verify(&self, filename: &str, content: &str) -> (r: Vec<String>)
        ensures
            r.deep_view() == cs_diags(filename@, content@),
    {
        let lines = split_lines(content);
        let ghost l = lines.deep_view();
        let mut r: Vec<String> = Vec::new();
        let mut i: usize = 0;
        proof {
            assert(l.skip(0) =~= l);
            assert(r.deep_view() =~= Seq::<Seq<char>>::empty());
            assert(r.deep_view() + cs_from(filename@, l, 1) =~= cs_from(filename@, l, 1));
        }
        while i < lines.len()
            invariant
                0 <= i <= lines@.len(),
                l == lines.deep_view(),
                lines@.len() == l.len(),
                cs_diags(filename@, content@) == r.deep_view() + cs_from(
                    filename@,
                    l.skip(i as int),
                    (i + 1) as nat,
                ),
            decreases lines@.len() - i,
        {
            let line = &lines[i];
            proof {
                assert(l.skip(i as int)[0] =~= line@);
                assert(l.skip(i as int).drop_first() =~= l.skip(i + 1));
            }
            let ghost pre = r.deep_view();
            emit_cs_one(&mut r, filename, line, i + 1, "else if", "else if (");
            emit_cs_one(&mut r, filename, line, i + 1, "if", "if (");
            emit_cs_one(&mut r, filename, line, i + 1, "for", "for (");
            emit_cs_one(&mut r, filename, line, i + 1, "while", "while (");
            emit_cs_one(&mut r, filename, line, i + 1, "switch", "switch (");
            emit_cs_one(&mut r, filename, line, i + 1, "return", "return (");
            emit_cs_one(&mut r, filename, line, i + 1, "sizeof", "sizeof (");
            proof {
                let mid = cs_line(filename@, line@, (i + 1) as nat);
                assert(r.deep_view() =~= pre + mid);
                let rest = cs_from(filename@, l.skip(i + 1), (i + 2) as nat);
                assert((pre + mid) + rest =~= pre + (mid + rest));
            }
            i = i + 1;
        }
        proof {
            assert(l.skip(i as int).len() == 0);
            assert(r.deep_view() + cs_from(filename@, l.skip(i as int), (i + 1) as nat)
                =~= r.deep_view());
        }
        r
    }
}

impl Rule for ControlStructuresIndentation {
    fn verify(&self, filename: &str, content: &str) -> Vec<String> {
        ControlStructuresIndentation::verify(self, filename, content)
    }
}

// ---------------------------------------------------------------------------
// SpecialControlStructuresIndentation
// ---------------------------------------------------------------------------

/// Flags `return`, `break` and `continue` not directly followed by `;`.
pub struct SpecialControlStructuresIndentation {}

pub open spec fn scs_one(
    file: Seq<char>,
    line: Seq<char>,
    ln: nat,
    kw: Seq<char>,
    kwsemi: Seq<char>,
) -> Seq<Seq<char>> {
    if begins(trim_start(line), kw) && !has_sub(line, "("@) && !has_sub(line, kwsemi) {
        seq![loc(file, ln) + kw + " must be directly followed by ';'."@]
    } else {
        Seq::empty()
    }
}

pub open spec fn scs_line(file: Seq<char>, line: Seq<char>, ln: nat) -> Seq<Seq<char>> {
    scs_one(file, line, ln, "return"@, "return;"@) + scs_one(
        file,
        line,
        ln,
        "break"@,
        "break;"@,
    ) + scs_one(file, line, ln, "continue"@, "continue;"@)
}

pub open spec fn scs_from(file: Seq<char>, lines: Seq<Seq<char>>, ln: nat) -> Seq<Seq<char>>
    decreases lines.len(),
{
    if lines.len() == 0 {
        Seq::empty()
    } else {
        scs_line(file, lines[0], ln) + scs_from(file, lines.drop_first(), ln + 1)
    }
}

/// Every diagnostic of the terminator-punctuation rule, in line order.
pub open spec fn scs_diags(file: Seq<char>, content: Seq<char>) -> Seq<Seq<char>> {
    scs_from(file, line_seq(content), 1)
}

fn emit_scs_one(r: &mut Vec<String>, file: &str, line: &Vec<char>, ln: usize, kw: &str, kwsemi: &str)
    ensures
        final(r).deep_view() == old(r).deep_view() + scs_one(
            file@,
            line@,
            ln as nat,
            kw@,
            kwsemi@,
        ),
{
    let ghost pre = r.deep_view();
    if trimmed_begins_with(line, kw) && !contains_sub(line, "(") && !contains_sub(line, kwsemi) {
        let mut m = diag_prefix(file, ln as u128);
        m.append(kw);
        m.append(" must be directly followed by ';'.");
        push_diag(r, m);
    }
    proof {
        assert(r.deep_view() =~= pre + scs_one(file@, line@, ln as nat, kw@, kwsemi@));
    }
}

impl SpecialControlStructuresIndentation {
    pub fn new() -> (r: SpecialControlStructuresIndentation) {
        SpecialControlStructuresIndentation {  }
    }

    pub fn verify(&self, filename: &str, content: &str) -> (r: Vec<String>)
        ensures
            r.deep_view() == scs_diags(filename@, content@),
    {
        let lines = split_lines(content);
        let ghost l = lines.deep_view();
        let mut r: Vec<String> = Vec::new();
        let mut i: usize = 0;
        proof {
            assert(l.skip(0) =~= l);
            assert(r.deep_view() =~= Seq::<Seq<char>>::empty());
            assert(r.deep_view() + scs_from(filename@, l, 1) =~= scs_from(filename@, l, 1));
        }
        while i < lines.len()
            invariant
                0 <= i <= lines@.len(),
                l == lines.deep_view(),
                lines@.len() == l.len(),
                scs_diags(filename@, content@) == r.deep_view() + scs_from(
                    filename@,
                    l.skip(i as int),
                    (i + 1) as nat,
                ),
            decreases lines@.len() - i,
        {
            let line = &lines[i];
            proof {
                assert(l.skip(i as int)[0] =~= line@);
                assert(l.skip(i as int).drop_first() =~= l.skip(i + 1));
            }
            let ghost pre = r.deep_view();
            emit_scs_one(&mut r, filename, line, i + 1, "return", "return;");
            emit_scs_one(&mut r, filename, line, i + 1, "break", "break;");
            emit_scs_one(&mut r, filename, line, i + 1, "continue", "continue;");
            proof {
                let mid = scs_line(filename@, line@, (i + 1) as nat);
                assert(r.deep_view() =~= pre + mid);
                let rest = scs_from(filename@, l.skip(i + 1), (i + 2) as nat);
                assert((pre + mid) + rest =~= pre + (mid + rest));
            }
            i = i + 1;
        }
        proof {
            assert(l.skip(i as int).len() == 0);
            assert(r.deep_view() + scs_from(filename@, l.skip(i as int), (i + 1) as nat)
                =~= r.deep_view());
        }
        r
    }
}

impl Rule for SpecialControlStructuresIndentation {
    fn verify(&self, filename: &str, content: &str) -> Vec<String> {
        SpecialControlStructuresIndentation::verify(self, filename, content)
    }
}

// ---------------------------------------------------------------------------
// SwitchEnum
// ---------------------------------------------------------------------------

/// Flags case labels whose value does not look like an enum constant.
pub struct SwitchEnum {}

/// The diagnostic for one label keyword: with the keyword removed, the line
/// must equal its own uppercase form and hold no numeric character.
pub open spec fn se_one(file: Seq<char>, line: Seq<char>, ln: nat, kw: Seq<char>) -> Seq<
    Seq<char>,
> {
    if begins(trim_start(line), kw) {
        let rest = remove_all(line, kw);
        if upper_of(rest) != rest || (exists|k: int|
            0 <= k < rest.len() && is_numeric_char(rest[k])) {
            seq![loc(file, ln) + "Enum must only be used on enums."@]
        } else {
            Seq::empty()
        }
    } else {
        Seq::empty()
    }
}

pub open spec fn se_line(file: Seq<char>, line: Seq<char>, ln: nat) -> Seq<Seq<char>> {
    se_one(file, line, ln, "case"@) + se_one(file, line, ln, "default"@)
}

pub open spec fn se_from(file: Seq<char>, lines: Seq<Seq<char>>, ln: nat) -> Seq<Seq<char>>
    decreases lines.len(),
{
    if lines.len() == 0 {
        Seq::empty()
    } else {
        se_line(file, lines[0], ln) + se_from(file, lines.drop_first(), ln + 1)
    }
}

/// Every diagnostic of the switch-enum rule, in line order.
pub open spec fn se_diags(file: Seq<char>, content: Seq<char>) -> Seq<Seq<char>> {
    se_from(file, line_seq(content), 1)
}

fn emit_se_one(r: &mut Vec<String>, file: &str, line: &Vec<char>, ln: usize, kw: &str)
    requires
        kw@.len() >= 1,
    ensures
        final(r).deep_view() == old(r).deep_view() + se_one(file@, line@, ln as nat, kw@),
{
    let ghost pre = r.deep_view();
    if trimmed_begins_with(line, kw) {
        let rest = remove_occurrences(line, kw);
        let up = to_upper(&rest);
        if !chars_equal(&up, &rest) || contains_numeric(&rest) {
            let mut m = diag_prefix(file, ln as u128);
            m.append("Enum must only be used on enums.");
            push_diag(r, m);
        }
    }
    proof {
        assert(r.deep_view() =~= pre + se_one(file@, line@, ln as nat, kw@));
    }
}

impl SwitchEnum {
    pub fn new() -> (r: SwitchEnum) {
        SwitchEnum {  }
    }

    pub fn verify(&self, filename: &str, content: &str) -> (r: Vec<String>)
        ensures
            r.deep_view() == se_diags(filename@, content@),
    {
        let lines = split_lines(content);
        let ghost l = lines.deep_view();
        let mut r: Vec<String> = Vec::new();
        let mut i: usize = 0;
        proof {
            assert(l.skip(0) =~= l);
            assert(r.deep_view() =~= Seq::<Seq<char>>::empty());
            assert(r.deep_view() + se_from(filename@, l, 1) =~= se_from(filename@, l, 1));
        }
        while i < lines.len()
            invariant
                0 <= i <= lines@.len(),
                l == lines.deep_view(),
                lines@.len() == l.len(),
                se_diags(filename@, content@) == r.deep_view() + se_from(
                    filename@,
                    l.skip(i as int),
                    (i + 1) as nat,
                ),
            decreases lines@.len() - i,
        {
            let line = &lines[i];
            proof {
                assert(l.skip(i as int)[0] =~= line@);
                assert(l.skip(i as int).drop_first() =~= l.skip(i + 1));
                reveal_strlit("case");
                reveal_strlit("default");
            }
            let ghost pre = r.deep_view();
            emit_se_one(&mut r, filename, line, i + 1, "case");
            emit_se_one(&mut r, filename, line, i + 1, "default");
            proof {
                let mid = se_line(filename@, line@, (i + 1) as nat);
                assert(r.deep_view() =~= pre + mid);
                let rest = se_from(filename@, l.skip(i + 1), (i + 2) as nat);
                assert((pre + mid) + rest =~= pre + (mid + rest));
            }
            i = i + 1;
        }
        proof {
            assert(l.skip(i as int).len() == 0);
            assert(r.deep_view() + se_from(filename@, l.skip(i as int), (i + 1) as nat)
                =~= r.deep_view());
        }
        r
    }
}

impl Rule for SwitchEnum {
    fn verify(&self, filename: &str, content: &str) -> Vec<String> {
        SwitchEnum::verify(self, filename, content)
    }
}

// ---------------------------------------------------------------------------
// SwitchDefaultCase
// ---------------------------------------------------------------------------

/// Flags switch statements without a `default` case.
pub struct SwitchDefaultCase {}

/// The scan state of the default-case rule: whether the scan stands in a
/// switch, the switch's brace depth, and whether its default case was seen.
pub ghost struct SdcState {
    pub insw: bool,
    pub swind: nat,
    pub found: bool,
}

/// One step of the default-case scan.
pub open spec fn sdc_step(file: Seq<char>, line: Seq<char>, ln: nat, st: SdcState) -> (Seq<
    Seq<char>,
>, SdcState) {
    let entering = begins(trim_start(line), "switch ("@);
    let insw1 = entering || st.insw;
    let found1 = if entering {
        false
    } else {
        st.found
    };
    let swind1: nat = if entering {
        0
    } else {
        st.swind
    };
    if insw1 {
        let swind2 = if has_char(line, '{') {
            swind1 + 1
        } else {
            swind1
        };
        if swind2 > 0 && has_char(line, '}') {
            let swind3: nat = (swind2 - 1) as nat;
            if swind3 == 0 {
                let d: Seq<Seq<char>> = if !found1 {
                    seq![loc(file, ln) + "Missing default case for the switch statement."@]
                } else {
                    Seq::empty()
                };
                let found2 = begins(trim_start(line), "default"@) || found1;
                (d, SdcState { insw: false, swind: swind3, found: found2 })
            } else {
                let found2 = begins(trim_start(line), "default"@) || found1;
                (Seq::empty(), SdcState { insw: insw1, swind: swind3, found: found2 })
            }
        } else {
            let found2 = begins(trim_start(line), "default"@) || found1;
            (Seq::empty(), SdcState { insw: insw1, swind: swind2, found: found2 })
        }
    } else {
        (Seq::empty(), SdcState { insw: insw1, swind: swind1, found: found1 })
    }
}

pub open spec fn sdc_from(file: Seq<char>, lines: Seq<Seq<char>>, ln: nat, st: SdcState) -> Seq<
    Seq<char>,
>
    decreases lines.len(),
{
    if lines.len() == 0 {
        Seq::empty()
    } else {
        sdc_step(file, lines[0], ln, st).0 + sdc_from(
            file,
            lines.drop_first(),
            ln + 1,
            sdc_step(file, lines[0], ln, st).1,
        )
    }
}

/// Every diagnostic of the default-case rule, in line order.
pub open spec fn sdc_diags(file: Seq<char>, content: Seq<char>) -> Seq<Seq<char>> {
    sdc_from(file, line_seq(content), 1, SdcState { insw: false, swind: 0, found: false })
}

impl SwitchDefaultCase {
    pub fn new() -> (r: SwitchDefaultCase) {
        SwitchDefaultCase {  }
    }

    #[verifier::rlimit(50)]
    pub fn verify(&self, filename: &str, content: &str) -> (r: Vec<String>)
        ensures
            r.deep_view() == sdc_diags(filename@, content@),
    {
        let lines = split_lines(content);
        let ghost l = lines.deep_view();
        let mut r: Vec<String> = Vec::new();
        let mut insw: bool = false;
        let mut swind: usize = 0;
        let mut found: bool = false;
        let mut i: usize = 0;
        proof {
            assert(l.skip(0) =~= l);
            assert(r.deep_view() =~= Seq::<Seq<char>>::empty());
            assert(r.deep_view() + sdc_from(
                filename@,
                l,
                1,
                SdcState { insw: false, swind: 0, found: false },
            ) =~= sdc_from(filename@, l, 1, SdcState { insw: false, swind: 0, found: false }));
        }
        while i < lines.len()
            invariant
                0 <= i <= lines@.len(),
                swind <= i,
                l == lines.deep_view(),
                lines@.len() == l.len(),
                sdc_diags(filename@, content@) == r.deep_view() + sdc_from(
                    filename@,
                    l.skip(i as int),
                    (i + 1) as nat,
                    SdcState { insw: insw, swind: swind as nat, found: found },
                ),
            decreases lines@.len() - i,
        {
            let ghost st = SdcState { insw: insw, swind: swind as nat, found: found };
            let line = &lines[i];
            proof {
                assert(l.skip(i as int)[0] =~= line@);
                assert(l.skip(i as int).drop_first() =~= l.skip(i + 1));
            }
            let ghost pre = r.deep_view();
            if trimmed_begins_with(line, "switch (") {
                insw = true;
                found = false;
                swind = 0;
            }
            if insw {
                if contains_char(line, '{') {
                    swind = swind + 1;
                }
                if swind > 0 && contains_char(line, '}') {
                    swind = swind - 1;
                    if swind == 0 {
                        insw = false;
                        if !found {
                            let mut m = diag_prefix(filename, (i + 1) as u128);
                            m.append("Missing default case for the switch statement.");
                            push_diag(&mut r, m);
                        }
                    }
                }
                if trimmed_begins_with(line, "default") {
                    found = true;
                }
            }
            proof {
                let (fe, st2) = sdc_step(filename@, line@, (i + 1) as nat, st);
                assert(SdcState { insw: insw, swind: swind as nat, found: found } == st2);
                assert(r.deep_view() =~= pre + fe);
                let rest = sdc_from(filename@, l.skip(i + 1), (i + 2) as nat, st2);
                assert((pre + fe) + rest =~= pre + (fe + rest));
            }
            i = i + 1;
        }
        proof {
            assert(l.skip(i as int).len() == 0);
            assert(r.deep_view() + sdc_from(
                filename@,
                l.skip(i as int),
                (i + 1) as nat,
                SdcState { insw: insw, swind: swind as nat, found: found },
            ) =~= r.deep_view());
        }
        r
    }
}

impl Rule for SwitchDefaultCase {
    fn verify(&self, filename: &str, content: &str) -> Vec<String> {
        SwitchDefaultCase::verify(self, filename, content)
    }
}

// ---------------------------------------------------------------------------
// SwitchEnd
// ---------------------------------------------------------------------------

/// Flags switch cases without a `break` or `return` before the next label or
/// the switch's end.
pub struct SwitchEnd {}

/// The scan state of the case-terminator rule.
pub ghost struct SweState {
    pub insw: bool,
    pub swind: nat,
    pub seen: bool,
}

/// One step of the case-terminator scan.
pub open spec fn swe_step(file: Seq<char>, line: Seq<char>, ln: nat, st: SweState) -> (Seq<
    Seq<char>,
>, SweState) {
    let entering = begins(trim_start(line), "switch ("@);
    let insw1 = entering || st.insw;
    let seen1 = entering || st.seen;
    let swind1: nat = if entering {
        0
    } else {
        st.swind
    };
    if insw1 {
        let swind2 = if has_char(line, '{') {
            swind1 + 1
        } else {
            swind1
        };
        let closes = swind2 > 0 && has_char(line, '}');
        let swind3: nat = if closes {
            (swind2 - 1) as nat
        } else {
            swind2
        };
        let ended = closes && swind3 == 0;
        let d1: Seq<Seq<char>> = if ended && !seen1 {
            seq![loc(file, ln) + "Missing return or break statement for the previous case."@]
        } else {
            Seq::empty()
        };
        let seen2 = seen1 || begins(trim_start(line), "break"@) || begins(
            trim_start(line),
            "return"@,
        );
        let labeled = begins(trim_start(line), "case"@) || begins(trim_start(line), "default"@);
        let d2: Seq<Seq<char>> = if labeled && !seen2 {
            seq![loc(file, ln) + "Missing return or break statement for the previous case."@]
        } else {
            Seq::empty()
        };
        let seen3 = if labeled {
            false
        } else {
            seen2
        };
        (d1 + d2, SweState { insw: insw1 && !ended, swind: swind3, seen: seen3 })
    } else {
        (Seq::empty(), SweState { insw: insw1, swind: swind1, seen: seen1 })
    }
}

pub open spec fn swe_from(file: Seq<char>, lines: Seq<Seq<char>>, ln: nat, st: SweState) -> Seq<
    Seq<char>,
>
    decreases lines.len(),
{
    if lines.len() == 0 {
        Seq::empty()
    } else {
        swe_step(file, lines[0], ln, st).0 + swe_from(
            file,
            lines.drop_first(),
            ln + 1,
            swe_step(file, lines[0], ln, st).1,
        )
    }
}

/// Every diagnostic of the case-terminator rule, in line order.
pub open spec fn swe_diags(file: Seq<char>, content: Seq<char>) -> Seq<Seq<char>> {
    swe_from(file, line_seq(content), 1, SweState { insw: false, swind: 0, seen: false })
}

impl SwitchEnd {
    pub fn new() -> (r: SwitchEnd) {
        SwitchEnd {  }
    }

    #[verifier::rlimit(50)]
    pub fn verify(&self, filename: &str, content: &str) -> (r: Vec<String>)
        ensures
            r.deep_view() == swe_diags(filename@, content@),
    {
        let lines = split_lines(content);
        let ghost l = lines.deep_view();
        let mut r: Vec<String> = Vec::new();
        let mut insw: bool = false;
        let mut swind: usize = 0;
        let mut seen: bool = false;
        let mut i: usize = 0;
        proof {
            assert(l.skip(0) =~= l);
            assert(r.deep_view() =~= Seq::<Seq<char>>::empty());
            assert(r.deep_view() + swe_from(
                filename@,
                l,
                1,
                SweState { insw: false, swind: 0, seen: false },
            ) =~= swe_from(filename@, l, 1, SweState { insw: false, swind: 0, seen: false }));
        }
        while i < lines.len()
            invariant
                0 <= i <= lines@.len(),
                swind <= i,
                l == lines.deep_view(),
                lines@.len() == l.len(),
                swe_diags(filename@, content@) == r.deep_view() + swe_from(
                    filename@,
                    l.skip(i as int),
                    (i + 1) as nat,
                    SweState { insw: insw, swind: swind as nat, seen: seen },
                ),
            decreases lines@.len() - i,
        {
            let ghost st = SweState { insw: insw, swind: swind as nat, seen: seen };
            let line = &lines[i];
            proof {
                assert(l.skip(i as int)[0] =~= line@);
                assert(l.skip(i as int).drop_first() =~= l.skip(i + 1));
            }
            let ghost pre = r.deep_view();
            if trimmed_begins_with(line, "switch (") {
                insw = true;
                seen = true;
                swind = 0;
            }
            if insw {
                if contains_char(line, '{') {
                    swind = swind + 1;
                }
                if swind > 0 && contains_char(line, '}') {
                    swind = swind - 1;
                    if swind == 0 {
                        insw = false;
                        if !seen {
                            let mut m = diag_prefix(filename, (i + 1) as u128);
                            m.append("Missing return or break statement for the previous case.");
                            push_diag(&mut r, m);
                        }
                    }
                }
                if trimmed_begins_with(line, "break") || trimmed_begins_with(line, "return") {
                    seen = true;
                }
                if trimmed_begins_with(line, "case") || trimmed_begins_with(line, "default") {
                    if !seen {
                        let mut m = diag_prefix(filename, (i + 1) as u128);
                        m.append("Missing return or break statement for the previous case.");
                        push_diag(&mut r, m);
                    }
                    seen = false;
                }
            }
            proof {
                let (fe, st2) = swe_step(filename@, line@, (i + 1) as nat, st);
                assert(SweState { insw: insw, swind: swind as nat, seen: seen } == st2);
                assert(r.deep_view() =~= pre + fe);
                let rest = swe_from(filename@, l.skip(i + 1), (i + 2) as nat, st2);
                assert((pre + fe) + rest =~= pre + (fe + rest));
            }
            i = i + 1;
        }
        proof {
            assert(l.skip(i as int).len() == 0);
            assert(r.deep_view() + swe_from(
                filename@,
                l.skip(i as int),
                (i + 1) as nat,
                SweState { insw: insw, swind: swind as nat, seen: seen },
            ) =~= r.deep_view());
        }
        r
    }
}

impl Rule for SwitchEnd {
    fn verify(&self, filename: &str, content: &str) -> Vec<String> {
        SwitchEnd::verify(self, filename, content)
    }
}

} // verus!
