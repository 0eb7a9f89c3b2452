use cstyle::function::{
    FunctionBlankLines, FunctionMaxArguments, FunctionMaxCodeLines, FunctionParametersIndentation,
    FunctionStartParenthesis, FunctionsPrototypeLocation, MaxExportedFunctions,
    MaxFunctionsPerSourceFile,
};

#[test]
fn function_max_code_lines() {
    let function_max_code_lines = FunctionMaxCodeLines::new(1);

    assert_eq!(function_max_code_lines.verify("", "something()\n{\n}").len(), 0);
    assert_eq!(function_max_code_lines.verify("", "something()\n{\n\n\n}").len(), 0);
    assert_eq!(function_max_code_lines.verify("", "something()\n{\ncode;\n\n}").len(), 0);
    assert_eq!(function_max_code_lines.verify("", "something()\n{\ncode;\n//comment\n}").len(), 0);
    assert_eq!(
        function_max_code_lines.verify("", "something()\n{\ncode;\n/*comment*/\n}").len(),
        0
    );
    assert_eq!(
        function_max_code_lines.verify("", "something()\n{\ncode;\n/*\ncomment\n*/\n}").len(),
        0
    );

    assert_ne!(function_max_code_lines.verify("", "something()\n{\ncode;\ncode;\n}").len(), 0);
    assert_ne!(
        function_max_code_lines.verify("", "something()\n{\ncode;\n//comment\ncode;\n}").len(),
        0
    );
    assert_ne!(
        function_max_code_lines.verify("", "something()\n{\ncode;\ncode;//comment\n}").len(),
        0
    );
    assert_ne!(
        function_max_code_lines.verify("", "something()\n{\ncode;\ncode/*\ncomment*/\n}").len(),
        0
    );
    assert_ne!(
        function_max_code_lines.verify("", "something()\n{\ncode;\n/*\ncomment*/code;\n}").len(),
        0
    );
}

#[test]
fn function_max_arguments() {
    let function_max_arguments = FunctionMaxArguments::new(1);

    assert_eq!(function_max_arguments.verify("", "something()\n{\n}").len(), 0);
    assert_eq!(function_max_arguments.verify("", "something(int test)\n{\n}").len(), 0);
    assert_eq!(function_max_arguments.verify("", "something(struct test temp)\n{\n}").len(), 0);

    assert_eq!(
        function_max_arguments.verify("", "something(struct test temp, int testv2)\n{\n}").len(),
        1
    );
    assert_eq!(
        function_max_arguments
            .verify("", "something(struct test temp, int testv2, int v4)\n{\n}")
            .len(),
        1
    );
    assert_eq!(
        function_max_arguments.verify("", "something(struct test temp,\nint testv2)\n{\n}").len(),
        1
    );
    assert_eq!(
        function_max_arguments
            .verify("", "something(\nstruct test temp,\nint testv2\n)\n{\n}")
            .len(),
        1
    );
}

#[test]
fn function_blank_lines() {
    let function_blank_lines = FunctionBlankLines::new();

    assert_eq!(function_blank_lines.verify("", "f()\n{\n}").len(), 0);
    assert_eq!(function_blank_lines.verify("", "f()\n{\n\n}").len(), 0);
    assert_eq!(function_blank_lines.verify("", "f()\n{\n//comment\n//comment\n}").len(), 0);
    assert_eq!(function_blank_lines.verify("", "f()\n{\ncode\n\n}").len(), 0);
    assert_eq!(function_blank_lines.verify("", "f()\n{\n/*comment\n*/\n\n}").len(), 0);

    assert_eq!(function_blank_lines.verify("", "f()\n{\n\n\n}").len(), 1);
    assert_eq!(function_blank_lines.verify("", "f()\n{\n\n//comment\n\n}").len(), 1);
    assert_eq!(function_blank_lines.verify("", "f()\n{\n\n/*\ncomment\n*/\n\n}").len(), 1);
    assert_eq!(
        function_blank_lines.verify("", "f()\n{\n\n/*next line is a comment\n\n*/\n\n}").len(),
        1
    );
}

#[test]
fn function_start_parenthesis() {
    let function_start_parenthesis = FunctionStartParenthesis::new();

    assert_eq!(function_start_parenthesis.verify("", "f()\n{\n}").len(), 0);
    assert_eq!(function_start_parenthesis.verify("", "f()\n{\n (\n}").len(), 0);
    assert_eq!(function_start_parenthesis.verify("", "f()\n{\n\t(\n}").len(), 0);

    assert_eq!(function_start_parenthesis.verify("", "f ()\n{\n\n}").len(), 1);
    assert_eq!(function_start_parenthesis.verify("", "f   ()\n{\n\n}").len(), 1);
    assert_eq!(function_start_parenthesis.verify("", "f\t()\n{\n\n}").len(), 1);
}

#[test]
fn max_functions_per_source_file() {
    let max_functions_per_source_file = MaxFunctionsPerSourceFile::new(1);

    assert_eq!(max_functions_per_source_file.verify(".c", "something();").len(), 0);
    assert_eq!(max_functions_per_source_file.verify(".c", "f()\n{\n\n}").len(), 0);
    assert_eq!(max_functions_per_source_file.verify(".c", "f ()\n{\n {\n }\n}").len(), 0);

    assert_eq!(max_functions_per_source_file.verify(".c", "{\n}\n{\n}").len(), 1);
    assert_eq!(max_functions_per_source_file.verify(".c", "{\n}\n{\n}\n{\n}").len(), 1);
    assert_eq!(max_functions_per_source_file.verify(".h", "f()\n{\n}\ng()\n{\n}").len(), 0);
    assert_eq!(max_functions_per_source_file.verify(".h", "f ()\n{\n {\n }\n}").len(), 0);
}

#[test]
fn max_exported_functions() {
    let max_exported_functions = MaxExportedFunctions::new(1);

    assert_eq!(max_exported_functions.verify(".c", "something();\nsomething();").len(), 0);
    assert_eq!(max_exported_functions.verify(".h", "f();").len(), 0);

    assert_eq!(max_exported_functions.verify(".h", "f()\ng()\n").len(), 1);
    assert_eq!(max_exported_functions.verify(".h", "#m()\ng()").len(), 0);
}

#[test]
fn function_parameters_indentation() {
    let function_parameters_indentation = FunctionParametersIndentation::new();

    assert_eq!(
        function_parameters_indentation.verify("", "something();\nsomething();").len(),
        0
    );
    assert_eq!(
        function_parameters_indentation.verify("", "something(hello);\nsomething(world);").len(),
        0
    );
    assert_eq!(function_parameters_indentation.verify("", "something(hello, world);").len(), 0);
    assert_eq!(function_parameters_indentation.verify("", "f(hello,\n  world);").len(), 0);
    assert_eq!(function_parameters_indentation.verify("", "f(hello,\n  world\n  and);").len(), 0);

    assert_eq!(function_parameters_indentation.verify("", "f(hello,\n world);").len(), 1);
    assert_eq!(function_parameters_indentation.verify("", "f(hello,\n   world);").len(), 1);

    assert_eq!(function_parameters_indentation.verify("", "f(hello,\n   world\nand);").len(), 2);
}

#[test]
fn functions_prototype_location() {
    let functions_prototype_location = FunctionsPrototypeLocation::new();

    assert_eq!(functions_prototype_location.verify(".h", "something();\nsomething();").len(), 0);

    assert_eq!(
        functions_prototype_location.verify(".c", "something(hello);\nsomething(world);").len(),
        2
    );
    assert_eq!(
        functions_prototype_location
            .verify(".c", "something(hello)\n{\n}\nsomething(world){}")
            .len(),
        0
    );
}
