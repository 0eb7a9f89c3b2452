use cstyle::misc::{Enum, Goto, MultiLinesComment, OwnLineBrace, StaticVariable};

#[test]
fn misc_own_line_brace() {
    let own_line_brace = OwnLineBrace::new();

    assert_eq!(own_line_brace.verify("", "{\nsome text\n}\n").len(), 0);
    assert_eq!(own_line_brace.verify("", "  {  ").len(), 0);
    assert_eq!(own_line_brace.verify("", "};").len(), 0);
    assert_eq!(own_line_brace.verify("", "} something;").len(), 0);

    assert_ne!(own_line_brace.verify("", "{}\n").len(), 0);
    assert_ne!(own_line_brace.verify("", "}}").len(), 0);
    assert_ne!(own_line_brace.verify("", "{{").len(), 0);

    assert_eq!(own_line_brace.verify("", "{some").len(), 1);
    assert_eq!(own_line_brace.verify("", ";}").len(), 1);
}

#[test]
fn misc_multi_lines_comment() {
    let multi_lines_comment = MultiLinesComment::new();

    assert_eq!(multi_lines_comment.verify("", "zdnkcndccc").len(), 0);
    assert_eq!(multi_lines_comment.verify("", "//zdnkcndccc").len(), 0);
    assert_eq!(multi_lines_comment.verify("", "/*zdnkcndccc*/").len(), 0);
    assert_eq!(multi_lines_comment.verify("", "/*\n**zdnkcn\n*/").len(), 0);

    assert_ne!(multi_lines_comment.verify("", "/*zdnkcn\ndccc*/").len(), 0);
    assert_ne!(multi_lines_comment.verify("", "/*\nzdnkcn\n*/").len(), 0);
    assert_ne!(multi_lines_comment.verify("", "/*\nav**zdnkcn\n*/").len(), 0);
    assert_ne!(multi_lines_comment.verify("", "/** *\n**zdnkcn\n*/").len(), 0);
    assert_ne!(multi_lines_comment.verify("", "/**\n**zdnkcn\n*/*").len(), 0);
}

#[test]
fn goto() {
    let goto = Goto::new();

    assert_eq!(goto.verify("", "zdnkcndccc").len(), 0);
    assert_eq!(goto.verify("", "go\nto\ngo\nto\n").len(), 0);
    assert_eq!(goto.verify("", "goto").len(), 1);
    assert_eq!(goto.verify("", "goto\nadezf\nvvrgotoded").len(), 2);
}

#[test]
fn enum_rule() {
    let enum_rule = Enum::new();

    assert_eq!(enum_rule.verify("", "enum{}").len(), 0);
    assert_eq!(enum_rule.verify("", "enum\n{\n}A").len(), 0);

    assert_eq!(enum_rule.verify("", "enum\n{\nVALUE\n}").len(), 0);
    assert_eq!(enum_rule.verify("", "enum\n{\nVALUE, \t\nVALUE2\n}").len(), 0);

    assert_eq!(enum_rule.verify("", "enum\n{\nvalue\n}").len(), 1);
    assert_eq!(enum_rule.verify("", "enum\n{\nValue\n}").len(), 1);
    assert_eq!(enum_rule.verify("", "enum\n{\nVALUE,VALUE2\n}").len(), 1);
}

#[test]
fn static_variable() {
    let static_variable = StaticVariable::new();

    assert_eq!(static_variable.verify("", "something;").len(), 0);
    assert_eq!(static_variable.verify("", "const something;").len(), 0);
    assert_eq!(static_variable.verify("", "static const something;").len(), 0);
    assert_eq!(static_variable.verify("", "static function(parameter...").len(), 0);
    assert_eq!(static_variable.verify("", "int some_static_name;").len(), 0);
    assert_eq!(static_variable.verify("", "//something static something").len(), 0);

    assert_eq!(static_variable.verify("", "static something;").len(), 1);
    assert_eq!(static_variable.verify("", "static var = function(parameter);").len(), 1);
}
