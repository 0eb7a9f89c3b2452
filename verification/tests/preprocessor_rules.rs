use cstyle::preprocessor::{
    HeaderGuard, IncludeOrder, IncludePreprocessor, MacroArguments, MacroName, MultiLinesMacro,
    PreprocessorComment, PreprocessorIndentation, PreprocessorOnFirstColumn,
};

#[test]
fn preprocessor_on_first_column() {
    let preprocessor_on_first_column = PreprocessorOnFirstColumn::new();

    assert_eq!(preprocessor_on_first_column.verify("", "#\n#").len(), 0);

    assert_eq!(preprocessor_on_first_column.verify("", " #\n\t#").len(), 2);
    assert_eq!(preprocessor_on_first_column.verify("", "3#something").len(), 0);
    assert_eq!(preprocessor_on_first_column.verify("", "adee#").len(), 0);
}

#[test]
fn preprocessor_indentation() {
    let preprocessor_indentation = PreprocessorIndentation::new();

    assert_eq!(
        preprocessor_indentation.verify("", "#if 0\n# define SOMETHING\n#endif").len(),
        0
    );
    assert_eq!(preprocessor_indentation.verify("", "#if 0\n#else\n#endif").len(), 0);

    assert_eq!(
        preprocessor_indentation.verify("", "#ifndef SOMETHING\n#define SOMETHING\n#endif").len(),
        1
    );
    assert_eq!(
        preprocessor_indentation.verify("", "# ifdef SOMETHING\n# define SOMETHING\n#endif").len(),
        1
    );
    assert_eq!(
        preprocessor_indentation.verify("", "#if 0\n# define SOMETHING\nsome code\n#endif").len(),
        0
    );
}

#[test]
fn preprocessor_comment() {
    let preprocessor_comment = PreprocessorComment::new();

    assert_eq!(preprocessor_comment.verify("", "qdee\ncece").len(), 0);
    assert_eq!(preprocessor_comment.verify("", "#if").len(), 0);
    assert_eq!(preprocessor_comment.verify("", "#define").len(), 0);

    assert_eq!(preprocessor_comment.verify("", "#else").len(), 1);
    assert_eq!(preprocessor_comment.verify("", "#endif").len(), 1);

    assert_eq!(preprocessor_comment.verify("", "#else /*  */").len(), 0);
    assert_eq!(preprocessor_comment.verify("", "#endif /* */").len(), 0);

    assert_eq!(preprocessor_comment.verify("", "#else //").len(), 0);
    assert_eq!(preprocessor_comment.verify("", "#endif //").len(), 0);
}

#[test]
fn multi_lines_macro() {
    let multi_lines_macro = MultiLinesMacro::new();

    assert_eq!(multi_lines_macro.verify("", "qdee\ncece").len(), 0);
    assert_eq!(multi_lines_macro.verify("", "#define efes 10").len(), 0);
    assert_eq!(multi_lines_macro.verify("", "#define zefrg (azdd ad) \\\n czdeff\n").len(), 0);

    assert_eq!(
        multi_lines_macro.verify("", "#define  zefrg (azdd ad) \\\n czdeff\\\n").len(),
        1
    );
    assert_eq!(
        multi_lines_macro
            .verify("", "#define  zefrg (azdd ad) \\\n czdeff                  \\\neececev")
            .len(),
        0
    );
}

#[test]
fn macro_name() {
    let macro_name = MacroName::new();

    assert_eq!(macro_name.verify("", "#ifdef HELLO").len(), 0);
    assert_eq!(macro_name.verify("", "# define WORLD 10").len(), 0);
    assert_eq!(
        macro_name.verify("", "#   ifndef MACRO_NAME(lower_case)\\\n something\n").len(),
        0
    );

    assert_eq!(macro_name.verify("", "#define  Name").len(), 1);
    assert_eq!(macro_name.verify("", "#define  name_lower_Case").len(), 1);
    assert_eq!(macro_name.verify("", "#define  zefrg(TEST ad)\\\n czdeff").len(), 1);
}

#[test]
fn macro_arguments() {
    let macro_arguments = MacroArguments::new();

    assert_eq!(macro_arguments.verify("", "#ifdef HELLO").len(), 0);
    assert_eq!(macro_arguments.verify("", "#define WORLD 10").len(), 0);
    assert_eq!(macro_arguments.verify("", "#ifndef MACRO_NAME(Lower_case)").len(), 0);
    assert_eq!(macro_arguments.verify("", "#ifndef MACRO_NAME(Lower_case, Good_case) CODE").len(), 0);

    assert_eq!(macro_arguments.verify("", "#ifndef MACRO_NAME(lower_case)").len(), 1);
    assert_eq!(macro_arguments.verify("", "#ifndef MACRO_NAME(lower_case, UPPERCASE)").len(), 2);

    assert_eq!(
        macro_arguments.verify("", "#ifndef MACRO_NAME(lower_case,\\\n UPPERCASE)").len(),
        2
    );
    assert_eq!(
        macro_arguments.verify("", "#ifndef MACRO_NAME(Lower_case,\\\n Good_case) CODE").len(),
        0
    );
}

#[test]
fn include_preprocessor() {
    let include_preprocessor = IncludePreprocessor::new();

    assert_eq!(include_preprocessor.verify("", "#ifdef HELLO").len(), 0);
    assert_eq!(include_preprocessor.verify("", "something").len(), 0);
    assert_eq!(include_preprocessor.verify("", "# include").len(), 0);
    assert_eq!(include_preprocessor.verify("", "//Comment\n#ifdef HELLO").len(), 0);
    assert_eq!(include_preprocessor.verify("", "/*\n**Comment\n*/\n#include").len(), 0);

    assert_eq!(include_preprocessor.verify("", "#define something\n#include").len(), 0);
    assert_eq!(
        include_preprocessor
            .verify("", "#define something\\\nend_of_mcro_definition\n#include")
            .len(),
        0
    );

    assert_eq!(include_preprocessor.verify("", "code\n#  include \"no_code\"").len(), 1);
    assert_eq!(include_preprocessor.verify("", "#include name\n code \n#include other\n").len(), 1);
}

#[test]
fn include_order() {
    let include_order = IncludeOrder::new();

    assert_eq!(include_order.verify(".h", "#ifdef HELLO").len(), 0);
    assert_eq!(include_order.verify(".h", "# include").len(), 0);
    assert_eq!(include_order.verify(".h", "#define SOMETHING\n# include \"header.h\"").len(), 0);
    assert_eq!(include_order.verify(".h", "#define SOMETHING\n# include <header.h>").len(), 0);
    assert_eq!(
        include_order.verify(".h", "# include <header.h>\n# include \"header.h\"").len(),
        0
    );

    assert_eq!(
        include_order.verify("test.h", "# include \"header.h\"\n# include <header.h>\n").len(),
        1
    );
    assert_eq!(
        include_order
            .verify("test.h", "# include <header.h>\n# include \"header.h\"\n# include <header.h>\n")
            .len(),
        1
    );

    assert_eq!(
        include_order.verify("hello.c", "#define SOMETHING\n# include <header.h>").len(),
        0
    );
    assert_eq!(
        include_order.verify(".c", "# include <header.h>\n# include \"header.h\"").len(),
        0
    );
    assert_eq!(
        include_order.verify(".c", "# include \"header.h\"\n# include <header.h>\n").len(),
        0
    );
    assert_eq!(
        include_order
            .verify(".c", "# include <header.h>\n# include \"header.h\"\n# include <header.h>\n")
            .len(),
        0
    );
}

#[test]
fn header_guard() {
    let header_guard = HeaderGuard::new();

    assert_eq!(header_guard.verify("test.h", "#ifndef TEST_H_\n# define TEST_H_").len(), 0);
    assert_eq!(header_guard.verify("../src/test.h", "#ifndef TEST_H_\n# define TEST_H_").len(), 0);

    assert_eq!(header_guard.verify("test.h", "#ifndef TEST_H\n# define TEST_H\n").len(), 2);
    assert_ne!(header_guard.verify("test.h", "# define TEST_H_").len(), 0);
    assert_ne!(header_guard.verify("test.h", "#ifndef TEST_H_").len(), 0);

    assert_eq!(header_guard.verify("test.h", "#ifndef TEST_H__\n# define TEST_H__").len(), 2);

    assert_ne!(header_guard.verify("test.h", "#ifndef TEST_H_#define TEST_H_").len(), 0);
    assert_eq!(header_guard.verify("test.h", "#ifndef TEST_H_\n\n# define TEST_H_").len(), 1);
    assert_eq!(
        header_guard.verify("test.h", "#ifndef TEST_H_\n#define OTHER_H\n# define TEST_H_").len(),
        1
    );
}
