use cstyle::space::{Comma, LineSize, Semicolon, SpaceIndentation, TrailingWhiteSpace};

#[test]
fn space_line_size() {
    let line_size = LineSize::new(5);

    assert_eq!(line_size.verify("", "1234\n").len(), 0);
    assert_eq!(line_size.verify("", "12345").len(), 1);
    assert_eq!(line_size.verify("", "12345\n").len(), 1);
    assert_eq!(line_size.verify("", "123456").len(), 1);
    assert_eq!(line_size.verify("", "12345\n1234\n1234").len(), 1);
    assert_eq!(line_size.verify("", "123456\n1234\n12345").len(), 2);
}

#[test]
fn space_space_indentation() {
    let space_indentation = SpaceIndentation::new();

    assert_eq!(space_indentation.verify("", "             ").len(), 0);
    assert_eq!(space_indentation.verify("", " \n \n       ").len(), 0);
    assert_eq!(space_indentation.verify("", "1234\t56   \t").len(), 1);
    assert_eq!(space_indentation.verify("", "12345\t\t\n12345").len(), 1);
    assert_eq!(space_indentation.verify("", "12345\t\n1\t345\n12345").len(), 2);
    assert_eq!(space_indentation.verify("", "123456\n12\\t45\n123456").len(), 0);
}

#[test]
fn space_trailing_whitespace() {
    let trailing_whitespace = TrailingWhiteSpace::new();

    assert_eq!(trailing_whitespace.verify("", "").len(), 0);
    assert_eq!(trailing_whitespace.verify("", "   a\n   b\n   o\n").len(), 0);
    assert_eq!(trailing_whitespace.verify("", "    12  34 \t56 ").len(), 1);
    assert_eq!(trailing_whitespace.verify("", "  \n \n").len(), 2);
    assert_eq!(trailing_whitespace.verify("", " z\t\t").len(), 1);
    assert_eq!(trailing_whitespace.verify("", " aad\t\n  \n \t").len(), 3);
}

#[test]
fn space_semicolon() {
    let semicolon = Semicolon::new();

    assert_eq!(semicolon.verify("", ";").len(), 0);
    assert_eq!(semicolon.verify("", "something;").len(), 0);
    assert_eq!(semicolon.verify("", "	;").len(), 0);
    assert_eq!(semicolon.verify("", "for ( ; ;)").len(), 0);

    assert_ne!(semicolon.verify("", "for (;;);").len(), 0);
    assert_ne!(semicolon.verify("", "return ;").len(), 0);
    assert_ne!(semicolon.verify("", ";;;").len(), 0);
    assert_ne!(semicolon.verify("", ";\t").len(), 0);
}

#[test]
fn space_comma() {
    let comma = Comma::new();

    assert_eq!(comma.verify("", "something,\nother").len(), 0);
    assert_eq!(comma.verify("", "something, something else\nother").len(), 0);
    assert_eq!(comma.verify("", "comma, comma, comma").len(), 0);

    assert_ne!(comma.verify("", "something, \nother").len(), 0);
    assert_ne!(comma.verify("", "something,\t\nother").len(), 0);
    assert_ne!(comma.verify("", "     , comma").len(), 0);
    assert_ne!(comma.verify("", "comma ,comma ,comma").len(), 0);
    assert_ne!(comma.verify("", "comma , comma , comma").len(), 0);
    assert_ne!(comma.verify("", "comma,comma,comma").len(), 0);
}
