//! Behavior of the block-depth verifier and the exact diagnostic texts.

use cstyle::brace;
use cstyle::control_structures::SwitchEnum;
use cstyle::indentation::IndentationLevel;
use cstyle::misc::Enum;
use cstyle::naming::{Global, Typedef};
use cstyle::preprocessor::{HeaderGuard, MacroArguments};
use cstyle::space::LineSize;

#[test]
fn balanced_blocks_are_clean() {
    let v = IndentationLevel::new(4);
    assert_eq!(v.verify("a.c", "{\n    {\n    }\n}").len(), 0);
}

#[test]
fn wrong_width_names_expected_and_actual() {
    let v = IndentationLevel::new(4);
    let diags = v.verify("a.c", "{\n 56\n}");
    assert_eq!(diags.len(), 1);
    assert_eq!(diags[0], "[a.c:2]Wrong indentation level. Expected 4 whitespaces got 1");
}

#[test]
fn verify_twice_gives_identical_diagnostics() {
    let v = IndentationLevel::new(4);
    let content = "switch (n)\n{\ncase 1:\n    f();\n    break;\n}";
    let first = v.verify("a.c", content);
    let second = v.verify("a.c", content);
    assert_eq!(first, second);

    let g = Global::new();
    assert_eq!(g.verify("a.c", "int x;\nint y;"), g.verify("a.c", "int x;\nint y;"));
}

#[test]
fn one_line_body_is_one_line_deep() {
    let v = IndentationLevel::new(4);
    assert_eq!(v.verify("a.c", "if (true)\n    f();").len(), 0);
    let diags = v.verify("a.c", "if (true)\nf();");
    assert_eq!(diags.len(), 1);
    assert_eq!(diags[0], "[a.c:2]Wrong indentation level. Expected 4 whitespaces got 0");
    // The body is exactly one line: the nested one-liner consumes no second
    // line, so what follows is measured against the enclosing block again.
    assert_eq!(v.verify("a.c", "if (a)\n    if (b)\nf();").len(), 0);
    assert_eq!(v.verify("a.c", "if (a)\n    if (b)\n    f();").len(), 1);
}

#[test]
fn switch_cases_validate_at_case_depth() {
    let v = IndentationLevel::new(4);
    let content =
        "switch (n)\n{\ncase 1:\n    f();\n    break;\ncase 2:\n    g();\n    break;\n}";
    assert_eq!(v.verify("a.c", content).len(), 6);
}

#[test]
fn switch_case_recovers_without_terminator() {
    let v = IndentationLevel::new(4);
    // No break before the next label or the closing brace: the depth is still
    // tracked correctly, so a conformant layout stays clean.
    let content = "switch (n)\n{\n    case 1:\n        f();\n    case 2:\n        g();\n}";
    assert_eq!(v.verify("a.c", content).len(), 0);
}

#[test]
fn lone_opening_brace_reports_once_at_end() {
    let v = IndentationLevel::new(4);
    let diags = v.verify("a.c", "{");
    assert_eq!(diags.len(), 1);
    assert_eq!(diags[0], "[a.c:2]Expected 1 more closing brace.");

    let flat = brace::IndentationLevel::new(4);
    let fd = flat.verify("a.c", "{");
    assert_eq!(fd.len(), 1);
    assert_eq!(fd[0], "[a.c:2]Expected 1 more closing brace.");
}

#[test]
fn lone_closing_brace_reports_once() {
    let v = IndentationLevel::new(4);
    let diags = v.verify("a.c", "}");
    assert_eq!(diags.len(), 1);
    assert_eq!(diags[0], "[a.c:1]Unexpected closing brace.");

    let flat = brace::IndentationLevel::new(4);
    let fd = flat.verify("a.c", "}");
    assert_eq!(fd.len(), 1);
    assert_eq!(fd[0], "[a.c:1]Unexpected closing brace.");
}

#[test]
fn conformant_fixture_round_trip() {
    let fixture = "int g_limit = 4;\n\nint check(int n)\n{\n    if (n > 0)\n        n = n - 1;\n    switch (n)\n    {\n        case 1:\n            f(n);\n            break;\n        default:\n            g(n);\n            break;\n    }\n    while (n > 1)\n    {\n        n = n - 2;\n    }\n    return n;\n}";
    let v = IndentationLevel::new(4);
    let clean = v.verify("fixture.c", fixture);
    assert_eq!(clean.len(), 0);

    // Shifting one line's indentation by one unit yields exactly one new
    // diagnostic, localized to that line.
    let mutated = fixture.replace("    return n;", "        return n;");
    let diags = v.verify("fixture.c", &mutated);
    assert_eq!(diags.len(), 1);
    assert_eq!(diags[0], "[fixture.c:20]Wrong indentation level. Expected 4 whitespaces got 8");
}

#[test]
fn line_size_message_is_exact() {
    let rule = LineSize::new(5);
    let diags = rule.verify("big.c", "123456");
    assert_eq!(diags.len(), 1);
    assert_eq!(diags[0], "[big.c:1]Line size exceeded.");
}

#[test]
fn enum_message_embeds_both_spellings() {
    let rule = Enum::new();
    let diags = rule.verify("e.c", "enum\n{\nvalue\n}");
    assert_eq!(diags.len(), 1);
    assert_eq!(diags[0], "[e.c:3]Enum values must be entirely capitalized. Expected 'VALUE' got 'value'");
}

#[test]
fn switch_enum_flags_numeric_labels() {
    let rule = SwitchEnum::new();
    // Uppercase but numeric: only the numeric test can flag it.
    let diags = rule.verify("s.c", "case A1B:");
    assert_eq!(diags.len(), 1);
    assert_eq!(diags[0], "[s.c:1]Enum must only be used on enums.");
    assert_eq!(rule.verify("s.c", "case AB:").len(), 0);
}

#[test]
fn macro_argument_message_recapitalizes() {
    let rule = MacroArguments::new();
    let diags = rule.verify("m.h", "#define M(lOWER)");
    assert_eq!(diags.len(), 1);
    assert_eq!(
        diags[0],
        "[m.h:1]Macro arguments must have be capitalized. Expected \"Lower\" got \"lOWER\""
    );
}

#[test]
fn typedef_messages_name_the_alias() {
    let rule = Typedef::new();
    let diags = rule.verify("t.h", "typedef unsigned char character;");
    assert_eq!(diags.len(), 1);
    assert_eq!(diags[0], "[t.h:1]Typedef 'character;' must start with 't_' or 'f_'.");

    let renamed = rule.verify("t.h", "typedef s_nion u_newunion;");
    assert_eq!(renamed.len(), 1);
    assert_eq!(renamed[0], "[t.h:1]Typedef 'u_newunion;' must start with 's_'.");
}

#[test]
fn global_count_message_is_exact() {
    let rule = Global::new();
    let diags = rule.verify("g.c", "int g_one;\nint g_two;");
    assert_eq!(diags.len(), 1);
    assert_eq!(diags[0], "[g.c]One global variable per file maximum, found 2.");
}

#[test]
fn header_guard_message_names_the_guard() {
    let rule = HeaderGuard::new();
    let diags = rule.verify("dir/test.h", "#ifndef WRONG\n#define TEST_H_");
    assert_eq!(diags.len(), 2);
    assert_eq!(diags[0], "[dir/test.h:1]'#ifndef TEST_H_' must appear on the first line.");
    assert_eq!(diags[1], "[dir/test.h:2]'# define TEST_H_' must appear on the second line.");
    assert_eq!(rule.verify("dir/test.h", "#ifndef TEST_H_\n# define TEST_H_").len(), 0);
}

#[test]
fn carriage_returns_are_line_endings() {
    let v = IndentationLevel::new(4);
    assert_eq!(v.verify("a.c", "{\r\n    x;\r\n}"), v.verify("a.c", "{\n    x;\n}"));
}
