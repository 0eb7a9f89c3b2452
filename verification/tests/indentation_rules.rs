use cstyle::indentation::{
    Comma, IndentationLevel, LineSize, Semicolon, SpaceIndentation, StructureFieldsIndentation,
    TrailingWhiteSpace,
};

#[test]
fn indentation_line_size() {
    let line_size = LineSize::new(5);

    assert_eq!(line_size.verify("", "1234\n").len(), 0);
    assert_eq!(line_size.verify("", "12345").len(), 1);
    assert_eq!(line_size.verify("", "12345\n").len(), 1);
    assert_eq!(line_size.verify("", "123456").len(), 1);
    assert_eq!(line_size.verify("", "12345\n1234\n1234").len(), 1);
    assert_eq!(line_size.verify("", "123456\n1234\n12345").len(), 2);
}

#[test]
fn indentation_space_indentation() {
    let space_indentation = SpaceIndentation::new();

    assert_eq!(space_indentation.verify("", "             ").len(), 0);
    assert_eq!(space_indentation.verify("", " \n \n       ").len(), 0);
    assert_eq!(space_indentation.verify("", "1234\t56   \t").len(), 1);
    assert_eq!(space_indentation.verify("", "12345\t\t\n12345").len(), 1);
    assert_eq!(space_indentation.verify("", "12345\t\n1\t345\n12345").len(), 2);
    assert_eq!(space_indentation.verify("", "123456\n12\\t45\n123456").len(), 0);
}

#[test]
fn indentation_trailing_whitespace() {
    let trailing_whitespace = TrailingWhiteSpace::new();

    assert_eq!(trailing_whitespace.verify("", "").len(), 0);
    assert_eq!(trailing_whitespace.verify("", "   a\n   b\n   o\n").len(), 0);
    assert_eq!(trailing_whitespace.verify("", "    12  34 \t56 ").len(), 1);
    assert_eq!(trailing_whitespace.verify("", "  \n \n").len(), 2);
    assert_eq!(trailing_whitespace.verify("", " z\t\t").len(), 1);
    assert_eq!(trailing_whitespace.verify("", " aad\t\n  \n \t").len(), 3);
}

#[test]
fn indentation_indentation_level() {
    let indentation_level = IndentationLevel::new(4);

    assert_eq!(indentation_level.verify("", "{\n    \n}   ").len(), 0);
    assert_eq!(indentation_level.verify("", "{\n    {\n    }\n}   ").len(), 0);
    assert_eq!(indentation_level.verify("", "if (true)\n    f();").len(), 0);
    assert_eq!(
        indentation_level
            .verify(
                "",
                "switch (number)\n{\n    case 1:\n        f();\n        break;\n    case 2:\n        return g();\n}"
            )
            .len(),
        0
    );

    assert_eq!(indentation_level.verify("", "             ").len(), 1);
    assert_eq!(indentation_level.verify("", "{\n 56\n}").len(), 1);
    assert_eq!(indentation_level.verify("", "{\n     56\n}").len(), 1);
    assert_eq!(indentation_level.verify("", "{\n    {\n  }\n}   ").len(), 1);
    assert_eq!(indentation_level.verify("", "{\n    {\n    test\n    }\n}   ").len(), 1);

    assert_eq!(indentation_level.verify("", "if (true)\nf();").len(), 1);
    assert_eq!(indentation_level.verify("", "if (true)\n    f();\n    g();").len(), 1);

    assert_eq!(
        indentation_level
            .verify(
                "",
                "switch (number)\n{\ncase 1:\n    f();\n    break;\ncase 2:\n    g();\n    break;\n}"
            )
            .len(),
        6
    );
    assert_eq!(
        indentation_level
            .verify(
                "",
                "switch (number)\n{\n    case 1:\n    f();\n    break;\n    case 2:\n    g();\n    break;\n}"
            )
            .len(),
        4
    );
}

#[test]
fn indentation_semicolon() {
    let semicolon = Semicolon::new();

    assert_eq!(semicolon.verify("", ";").len(), 0);
    assert_eq!(semicolon.verify("", "something;").len(), 0);
    assert_eq!(semicolon.verify("", "	;").len(), 0);
    assert_eq!(semicolon.verify("", "    for ( ; ;)").len(), 0);
    assert_eq!(
        semicolon
            .verify("", "#define MACRO(something) \\\n do_something();   \\\n other_things();")
            .len(),
        0
    );

    assert_ne!(semicolon.verify("", " for (;;);").len(), 0);
    assert_ne!(semicolon.verify("", " return ;").len(), 0);
    assert_ne!(semicolon.verify("", ";;;").len(), 0);
    assert_ne!(semicolon.verify("", ";\t").len(), 0);
}

#[test]
fn indentation_comma() {
    let comma = Comma::new();

    assert_eq!(comma.verify("", "something,\nother").len(), 0);
    assert_eq!(comma.verify("", "something, something else\nother").len(), 0);
    assert_eq!(comma.verify("", "comma, comma, comma").len(), 0);
    assert_eq!(comma.verify("", "{\n    {\n    \n}\n}").len(), 0);

    assert_ne!(comma.verify("", "something, \nother").len(), 0);
    assert_ne!(comma.verify("", "something,\t\nother").len(), 0);
    assert_ne!(comma.verify("", "     , comma").len(), 0);
    assert_ne!(comma.verify("", "comma ,comma ,comma").len(), 0);
    assert_ne!(comma.verify("", "comma , comma , comma").len(), 0);
    assert_ne!(comma.verify("", "comma,comma,comma").len(), 0);
}

#[test]
fn structure_fields_indentation() {
    let structure_fields_indentation = StructureFieldsIndentation::new();

    assert_eq!(
        structure_fields_indentation.verify("", "struct  test\n{\n    int arg1;\n};\n").len(),
        0
    );
    assert_eq!(
        structure_fields_indentation
            .verify("", "struct  test\n{\n    int arg1;\n    int arg2;\n};\n")
            .len(),
        0
    );
    assert_eq!(
        structure_fields_indentation
            .verify("", "typedef struct test\n{\n           int arg1;\n}              s_test;\n")
            .len(),
        0
    );
    assert_eq!(
        structure_fields_indentation
            .verify("", "typedef struct\n{\n           int arg1;\n}              s_test;\n")
            .len(),
        0
    );

    assert_eq!(
        structure_fields_indentation.verify("", "struct   test\n{\n    int arg1;\n};\n").len(),
        1
    );
    assert_eq!(
        structure_fields_indentation
            .verify("", "struct  test\n{\n   int arg1;\n     int arg2;\n};\n")
            .len(),
        2
    );
    assert_eq!(
        structure_fields_indentation
            .verify("", "typedef struct test\n{\n           int arg1;\n}     s_test;\n")
            .len(),
        1
    );
    assert_eq!(
        structure_fields_indentation
            .verify("", "typedef struct\n{\n    int arg1;\n} s_test;\n")
            .len(),
        1
    );
}
