use cstyle::brace::{IndentationLevel, OwnLineBrace};

#[test]
fn brace_own_line_brace() {
    let own_line_brace = OwnLineBrace::new();

    assert_eq!(own_line_brace.verify("", "{\nsome text\n}\n").len(), 0);
    assert_eq!(own_line_brace.verify("", "  {  ").len(), 0);
    assert_eq!(own_line_brace.verify("", "};").len(), 0);
    assert_eq!(own_line_brace.verify("", "} something;").len(), 0);

    assert_ne!(own_line_brace.verify("", "{}\n").len(), 0);
    assert_ne!(own_line_brace.verify("", "}}").len(), 0);
    assert_ne!(own_line_brace.verify("", "{{").len(), 0);

    assert_eq!(own_line_brace.verify("", "{some").len(), 1);
    assert_eq!(own_line_brace.verify("", ";}").len(), 1);
}

#[test]
fn brace_indentation_level() {
    let indentation_level = IndentationLevel::new(4);

    assert_eq!(indentation_level.verify("", "             ").len(), 0);
    assert_eq!(indentation_level.verify("", "{\n    \n}   ").len(), 0);
    assert_eq!(indentation_level.verify("", "{\n    {\n    }\n}   ").len(), 0);

    assert_eq!(indentation_level.verify("", "{").len(), 1);
    assert_eq!(indentation_level.verify("", "}").len(), 1);

    assert_eq!(indentation_level.verify("", "{\n 56\n}").len(), 1);
    assert_eq!(indentation_level.verify("", "{\n     56\n}").len(), 1);
    assert_eq!(indentation_level.verify("", "{\n    {\n  }\n}   ").len(), 1);
    assert_eq!(indentation_level.verify("", "{\n    {\n    test\n    }\n}   ").len(), 1);
}
