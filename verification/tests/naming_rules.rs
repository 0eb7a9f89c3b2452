use cstyle::naming::{Global, Typedef};

#[test]
fn typedef() {
    let typedef = Typedef::new();

    assert_eq!(typedef.verify("", "typedef unsigned char t_character;").len(), 0);
    assert_eq!(typedef.verify("", "typedef struct\n{\n}\n s_truct;").len(), 0);
    assert_eq!(typedef.verify("", "typedef enum\n{\n}\n e_num;").len(), 0);
    assert_eq!(typedef.verify("", "typedef union\n{\n}\n u_nion;").len(), 0);

    assert_eq!(typedef.verify("", "typedef unsigned char character;").len(), 1);
    assert_eq!(typedef.verify("", "typedef struct\n{\n}\n t_truct;").len(), 1);
    assert_eq!(typedef.verify("", "typedef enum\n{\n}\n s_num;").len(), 1);
    assert_eq!(typedef.verify("", "typedef union\n{\n}\n union;").len(), 1);

    assert_eq!(typedef.verify("", "typedef u_nion u_newunion;").len(), 0);
    assert_eq!(typedef.verify("", "typedef s_nion u_newunion;").len(), 1);
}

#[test]
fn global() {
    let global = Global::new();

    assert_eq!(global.verify("", "#define something;").len(), 0);
    assert_eq!(global.verify("", "int g_something;").len(), 0);
    assert_eq!(global.verify("", "int g_something = f();").len(), 0);
    assert_eq!(global.verify("", "void function();").len(), 0);

    assert_eq!(global.verify("", "int name;").len(), 1);
    assert_eq!(global.verify("", "struct something name;").len(), 1);

    assert_eq!(global.verify("", "int g_name = function();").len(), 0);
    assert_eq!(global.verify("", "//Comment;").len(), 0);
    assert_eq!(global.verify("", "/*\n**MultiLine Comment;\n*/").len(), 0);
}
