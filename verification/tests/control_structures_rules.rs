use cstyle::control_structures::{
    ControlStructuresIndentation, SpecialControlStructuresIndentation, SwitchDefaultCase,
    SwitchEnd, SwitchEnum,
};

#[test]
fn control_structures_indentation() {
    let control_structures_indentation = ControlStructuresIndentation::new();

    assert_eq!(control_structures_indentation.verify("", "something,\nother").len(), 0);
    assert_eq!(control_structures_indentation.verify("", "if (condition)").len(), 0);
    assert_eq!(control_structures_indentation.verify("", "while (condition)").len(), 0);
    assert_eq!(control_structures_indentation.verify("", "switch (condition)").len(), 0);
    assert_eq!(control_structures_indentation.verify("", "else if (condition)").len(), 0);
    assert_eq!(control_structures_indentation.verify("", "for (i = 0; i < n; ++i)").len(), 0);
    assert_eq!(control_structures_indentation.verify("", "return (something);").len(), 0);
    assert_eq!(control_structures_indentation.verify("", "return;").len(), 0);
    assert_eq!(control_structures_indentation.verify("", "sizeof (something);").len(), 0);

    assert_eq!(control_structures_indentation.verify("", "#if").len(), 0);
    assert_eq!(control_structures_indentation.verify("", "rediffusion").len(), 0);

    assert_eq!(control_structures_indentation.verify("", "if(condition)").len(), 1);
    assert_eq!(control_structures_indentation.verify("", "while(condition)").len(), 1);
    assert_eq!(control_structures_indentation.verify("", "switch(condition)").len(), 1);
    assert_eq!(control_structures_indentation.verify("", "else if(condition)").len(), 1);
    assert_eq!(control_structures_indentation.verify("", "for(i = 0; i < n; ++i)").len(), 1);
    assert_eq!(control_structures_indentation.verify("", "return(something);").len(), 1);
    assert_eq!(control_structures_indentation.verify("", "sizeof(something);").len(), 1);

    assert_eq!(control_structures_indentation.verify("", "if\t(condition)").len(), 1);
    assert_eq!(control_structures_indentation.verify("", "while  (condition)").len(), 1);
    assert_eq!(control_structures_indentation.verify("", "return   (i);").len(), 1);

    assert_eq!(control_structures_indentation.verify("", "int name_while = f(arg);").len(), 0);
}

#[test]
fn special_control_structures_indentation() {
    let special_control_structures_indentation = SpecialControlStructuresIndentation::new();

    assert_eq!(special_control_structures_indentation.verify("", "something,\nother").len(), 0);
    assert_eq!(special_control_structures_indentation.verify("", "return (condition);").len(), 0);
    assert_eq!(special_control_structures_indentation.verify("", "return;").len(), 0);
    assert_eq!(special_control_structures_indentation.verify("", "continue;").len(), 0);
    assert_eq!(special_control_structures_indentation.verify("", "break;").len(), 0);

    assert_eq!(special_control_structures_indentation.verify("", "return ;").len(), 1);
    assert_eq!(special_control_structures_indentation.verify("", "continue\n;").len(), 1);
    assert_eq!(special_control_structures_indentation.verify("", "break     ;").len(), 1);
    assert_eq!(special_control_structures_indentation.verify("", "return").len(), 1);
}

#[test]
fn switch_enum() {
    let switch_enum = SwitchEnum::new();

    assert_eq!(switch_enum.verify("", "case ENUM_TYPE:").len(), 0);
    assert_eq!(switch_enum.verify("", "default:").len(), 0);

    assert_eq!(switch_enum.verify("", "case 1:").len(), 1);
    assert_eq!(switch_enum.verify("", "case something_else;").len(), 1);
}

#[test]
fn switch_default_case() {
    let switch_default_case = SwitchDefaultCase::new();

    assert_eq!(
        switch_default_case.verify("", "switch (something)\n{\ndefault:\nf()\nbreak;\n}").len(),
        0
    );
    assert_eq!(
        switch_default_case
            .verify("", "switch (something)\n{\ncase 1:\ng()\nbreak;\ndefault:\nf()\nbreak;\n}")
            .len(),
        0
    );
    assert_eq!(
        switch_default_case
            .verify(
                "",
                "switch (something)\n{\ncase 1:\n{\ng()\nbreak;\n}\ndefault:\nf()\nbreak;\n}"
            )
            .len(),
        0
    );

    assert_eq!(switch_default_case.verify("", "switch (something)\n{\n}").len(), 1);
    assert_eq!(
        switch_default_case.verify("", "switch (something)\n{\ncase 1:\nf()\nbreak;\n}").len(),
        1
    );

    assert_eq!(switch_default_case.verify("", "void switch_something(bool b)\n{\n}").len(), 0);
    assert_eq!(switch_default_case.verify("", "void\nswitch_something\n(bool b)\n{\n}").len(), 0);
}

#[test]
fn switch_end() {
    let switch_end = SwitchEnd::new();

    assert_eq!(switch_end.verify("", "switch (something)\n{\n}").len(), 0);
    assert_eq!(
        switch_end.verify("", "switch (something)\n{\ndefault:\nf()\nbreak;\n}").len(),
        0
    );
    assert_eq!(switch_end.verify("", "switch (something)\n{\ncase 1:\nf()\nbreak;\n}").len(), 0);
    assert_eq!(
        switch_end
            .verify("", "switch (something)\n{\ncase 1:\n{\ng()\nbreak;\n}\ncase:\nf()\nbreak;\n}")
            .len(),
        0
    );
    assert_eq!(
        switch_end
            .verify("", "switch (something)\n{\ncase 1:\ng()\nbreak;\ndefault:\nf()\nbreak;\n}")
            .len(),
        0
    );

    assert_eq!(switch_end.verify("", "switch (something)\n{\ncase 1:\nf()\n}").len(), 1);
    assert_eq!(switch_end.verify("", "switch (something)\n{\ndefault 1:\nf()\n}").len(), 1);

    assert_eq!(
        switch_end.verify("", "switch (something)\n{\ncase 1:\ng();\ncase:\nf()\nbreak;\n}").len(),
        1
    );
    assert_eq!(
        switch_end
            .verify("", "switch (something)\n{\ncase 1:\ng();\ndefault:\nf()\nbreak;\n}")
            .len(),
        1
    );
    assert_eq!(
        switch_end
            .verify("", "switch (something)\n{\ncase 1:\ng();\nbreak;\n\ncase:\nf();\n}")
            .len(),
        1
    );
    assert_eq!(
        switch_end
            .verify("", "switch (something)\n{\ncase 1:\ng();\nbreak;\ndefault:\nf();\n}")
            .len(),
        1
    );
}
