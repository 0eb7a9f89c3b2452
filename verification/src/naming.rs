//! Naming rules: typedef alias prefixes and global variable names.

use vstd::prelude::*;
use vstd::string::*;

use crate::Rule;
use crate::text::{
    begins, begins_with, begins_with_chars, chars_to_string, contains_char, contains_sub,
    copy_range, decimal, diag_prefix, diag_prefix_file, ends, first_char_at, find_char, has_char,
    has_sub, line_seq, loc, loc_file, push_diag, split_lines, split_words, trim_end,
    trim_end_ends_with, trim_start, trimmed_begins_with, words,
};

verus! {

// ---------------------------------------------------------------------------
// Typedef
// ---------------------------------------------------------------------------

/// What a typedef aliases, read from the keywords on its first line.
#[derive(Clone, Copy, PartialEq, Eq, Structural)]
pub enum TypedefKind {
    Normal,
    Struct,
    Enum,
    Union,
}

pub open spec fn typedef_kind_of(line: Seq<char>) -> TypedefKind {
    if has_sub(line, "struct"@) {
        TypedefKind::Struct
    } else if has_sub(line, "enum"@) {
        TypedefKind::Enum
    } else if has_sub(line, "union"@) {
        TypedefKind::Union
    } else {
        TypedefKind::Normal
    }
}

/// The scan state of the typedef rule: the brace level, whether a typedef is
/// open, and its kind.
pub ghost struct TypedefState {
    pub lvl: nat,
    pub intd: bool,
    pub tt: TypedefKind,
}

/// The diagnostics for the line that closes a typedef: a too-short alias is
/// anonymous; a one-line rename keeps the old prefix; otherwise the alias
/// must carry the prefix of its kind.
pub open spec fn typedef_alias_diags(
    file: Seq<char>,
    line: Seq<char>,
    ln: nat,
    tt: TypedefKind,
) -> Seq<Seq<char>> {
    let alias = words(line).last();
    if alias.len() <= 2 {
        seq![loc(file, ln) + "Anonymous typedef mustn't be used."@]
    } else if has_sub(line, "typedef"@) && words(line).len() == 3 {
        let old = words(line)[1];
        if begins(old, "s_"@) || begins(old, "u_"@) || begins(old, "e_"@) || begins(old, "t_"@)
            || begins(old, "f_"@) {
            let start = old.take(2);
            if !begins(words(line)[2], start) {
                seq![
                    loc(file, ln) + "Typedef '"@ + alias + "' must start with '"@ + start + "'."@,
                ]
            } else {
                Seq::empty()
            }
        } else {
            Seq::empty()
        }
    } else {
        match tt {
            TypedefKind::Normal => if !(begins(alias, "t_"@) || begins(alias, "f_"@)) {
                seq![loc(file, ln) + "Typedef '"@ + alias + "' must start with 't_' or 'f_'."@]
            } else {
                Seq::empty()
            },
            TypedefKind::Struct => if !begins(alias, "s_"@) {
                seq![loc(file, ln) + "Struct typedef '"@ + alias + "' must start with 's_'."@]
            } else {
                Seq::empty()
            },
            TypedefKind::Enum => if !begins(alias, "e_"@) {
                seq![loc(file, ln) + "Enum typedef '"@ + alias + "' must start with 'e_'."@]
            } else {
                Seq::empty()
            },
            TypedefKind::Union => if !begins(alias, "u_"@) {
                seq![loc(file, ln) + "Union typedef '"@ + alias + "' must start with 'u_'."@]
            } else {
                Seq::empty()
            },
        }
    }
}

/// One step of the typedef scan.
pub open spec fn typedef_step(file: Seq<char>, line: Seq<char>, ln: nat, st: TypedefState) -> (Seq<
    Seq<char>,
>, TypedefState) {
    let lvl1 = if has_char(line, '{') {
        st.lvl + 1
    } else {
        st.lvl
    };
    let lvl2: nat = if has_char(line, '}') && lvl1 > 0 {
        (lvl1 - 1) as nat
    } else {
        lvl1
    };
    if lvl2 == 0 {
        let intd1 = st.intd || has_sub(line, "typedef"@);
        let tt1 = if has_sub(line, "typedef"@) {
            typedef_kind_of(line)
        } else {
            st.tt
        };
        if intd1 && has_char(line, ';') && words(line).len() > 0 {
            (
                typedef_alias_diags(file, line, ln, tt1),
                TypedefState { lvl: lvl2, intd: false, tt: tt1 },
            )
        } else {
            (Seq::empty(), TypedefState { lvl: lvl2, intd: intd1, tt: tt1 })
        }
    } else {
        (Seq::empty(), TypedefState { lvl: lvl2, intd: st.intd, tt: st.tt })
    }
}

pub open spec fn typedef_from(
    file: Seq<char>,
    lines: Seq<Seq<char>>,
    ln: nat,
    st: TypedefState,
) -> Seq<Seq<char>>
    decreases lines.len(),
{
    if lines.len() == 0 {
        Seq::empty()
    } else {
        typedef_step(file, lines[0], ln, st).0 + typedef_from(
            file,
            lines.drop_first(),
            ln + 1,
            typedef_step(file, lines[0], ln, st).1,
        )
    }
}

/// Every diagnostic of the typedef rule, in line order.
pub open spec fn typedef_diags(file: Seq<char>, content: Seq<char>) -> Seq<Seq<char>> {
    typedef_from(
        file,
        line_seq(content),
        1,
        TypedefState { lvl: 0, intd: false, tt: TypedefKind::Normal },
    )
}

/// Checks that typedef aliases carry the prefix of what they alias.
pub struct Typedef {}

/// Emits the alias diagnostics of one typedef-closing line.
#[verifier::rlimit(50)]
fn emit_typedef_alias(r: &mut Vec<String>, file: &str, line: &Vec<char>, ln: usize, tt: TypedefKind)
    requires
        words(line@).len() > 0,
    ensures
        final(r).deep_view() == old(r).deep_view() + typedef_alias_diags(
            file@,
            line@,
            ln as nat,
            tt,
        ),
{
    let ghost pre = r.deep_view();
    let ws = split_words(line);
    proof {
        assert(ws.deep_view().len() == words(line@).len());
        assert(ws.deep_view()[ws@.len() - 1] =~= ws@[ws@.len() - 1]@);
        assert(words(line@).last() == ws@[ws@.len() - 1]@);
    }
    let alias = &ws[ws.len() - 1];
    if alias.len() <= 2 {
        let mut m = diag_prefix(file, ln as u128);
        m.append("Anonymous typedef mustn't be used.");
        push_diag(r, m);
    } else if contains_sub(line, "typedef") && ws.len() == 3 {
        proof {
            assert(ws.deep_view()[1] =~= ws@[1]@);
            assert(ws.deep_view()[2] =~= ws@[2]@);
            assert(words(line@)[1] == ws@[1]@);
            assert(words(line@)[2] == ws@[2]@);
        }
        let old_w = &ws[1];
        if begins_with(old_w, "s_") || begins_with(old_w, "u_") || begins_with(old_w, "e_")
            || begins_with(old_w, "t_") || begins_with(old_w, "f_") {
            proof {
                reveal_strlit("s_");
                reveal_strlit("u_");
                reveal_strlit("e_");
                reveal_strlit("t_");
                reveal_strlit("f_");
            }
            let start = copy_range(old_w, 0, 2);
            let new_w = &ws[2];
            if !begins_with_chars(new_w, &start) {
                let mut m = diag_prefix(file, ln as u128);
                m.append("Typedef '");
                let a = chars_to_string(alias);
                m.append(a.as_str());
                m.append("' must start with '");
                let s = chars_to_string(&start);
                m.append(s.as_str());
                m.append("'.");
                push_diag(r, m);
            }
        }
    } else {
        match tt {
            TypedefKind::Normal => {
                if !(begins_with(alias, "t_") || begins_with(alias, "f_")) {
                    let mut m = diag_prefix(file, ln as u128);
                    m.append("Typedef '");
                    let a = chars_to_string(alias);
                    m.append(a.as_str());
                    m.append("' must start with 't_' or 'f_'.");
                    push_diag(r, m);
                }
            },
            TypedefKind::Struct => {
                if !begins_with(alias, "s_") {
                    let mut m = diag_prefix(file, ln as u128);
                    m.append("Struct typedef '");
                    let a = chars_to_string(alias);
                    m.append(a.as_str());
                    m.append("' must start with 's_'.");
                    push_diag(r, m);
                }
            },
            TypedefKind::Enum => {
                if !begins_with(alias, "e_") {
                    let mut m = diag_prefix(file, ln as u128);
                    m.append("Enum typedef '");
                    let a = chars_to_string(alias);
                    m.append(a.as_str());
                    m.append("' must start with 'e_'.");
                    push_diag(r, m);
                }
            },
            TypedefKind::Union => {
                if !begins_with(alias, "u_") {
                    let mut m = diag_prefix(file, ln as u128);
                    m.append("Union typedef '");
                    let a = chars_to_string(alias);
                    m.append(a.as_str());
                    m.append("' must start with 'u_'.");
                    push_diag(r, m);
                }
            },
        }
    }
    proof {
        assert(r.deep_view() =~= pre + typedef_alias_diags(file@, line@, ln as nat, tt));
    }
}

impl Typedef {
    pub fn new() -> (r: Typedef) {
        Typedef {  }
    }

    #[verifier::rlimit(50)]
    pub fn verify(&self, filename: &str, content: &str) -> (r: Vec<String>)
        ensures
            r.deep_view() == typedef_diags(filename@, content@),
    {
        let lines = split_lines(content);
        let ghost l = lines.deep_view();
        let mut r: Vec<String> = Vec::new();
        let mut lvl: usize = 0;
        let mut intd: bool = false;
        let mut tt: TypedefKind = TypedefKind::Normal;
        let mut i: usize = 0;
        proof {
            assert(l.skip(0) =~= l);
            assert(r.deep_view() =~= Seq::<Seq<char>>::empty());
            assert(r.deep_view() + typedef_from(
                filename@,
                l,
                1,
                TypedefState { lvl: 0, intd: false, tt: TypedefKind::Normal },
            ) =~= typedef_from(
                filename@,
                l,
                1,
                TypedefState { lvl: 0, intd: false, tt: TypedefKind::Normal },
            ));
        }
        while i < lines.len()
            invariant
                0 <= i <= lines@.len(),
                lvl <= i,
                l == lines.deep_view(),
                lines@.len() == l.len(),
                typedef_diags(filename@, content@) == r.deep_view() + typedef_from(
                    filename@,
                    l.skip(i as int),
                    (i + 1) as nat,
                    TypedefState { lvl: lvl as nat, intd: intd, tt: tt },
                ),
            decreases lines@.len() - i,
        {
            let ghost st = TypedefState { lvl: lvl as nat, intd: intd, tt: tt };
            let line = &lines[i];
            proof {
                assert(l.skip(i as int)[0] =~= line@);
                assert(l.skip(i as int).drop_first() =~= l.skip(i + 1));
            }
            let ghost pre = r.deep_view();
            if contains_char(line, '{') {
                lvl = lvl + 1;
            }
            if contains_char(line, '}') && lvl > 0 {
                lvl = lvl - 1;
            }
            if lvl == 0 {
                if contains_sub(line, "typedef") {
                    intd = true;
                    tt = if contains_sub(line, "struct") {
                        TypedefKind::Struct
                    } else if contains_sub(line, "enum") {
                        TypedefKind::Enum
                    } else if contains_sub(line, "union") {
                        TypedefKind::Union
                    } else {
                        TypedefKind::Normal
                    };
                }
                if intd && contains_char(line, ';') {
                    let ws = split_words(line);
                    if ws.len() > 0 {
                        proof {
                            assert(ws.deep_view().len() == words(line@).len());
                        }
                        emit_typedef_alias(&mut r, filename, line, i + 1, tt);
                        intd = false;
                    }
                }
            }
            proof {
                let (fe, st2) = typedef_step(filename@, line@, (i + 1) as nat, st);
                assert(TypedefState { lvl: lvl as nat, intd: intd, tt: tt } == st2);
                assert(r.deep_view() =~= pre + fe);
                let rest = typedef_from(filename@, l.skip(i + 1), (i + 2) as nat, st2);
                assert((pre + fe) + rest =~= pre + (fe + rest));
            }
            i = i + 1;
        }
        proof {
            assert(l.skip(i as int).len() == 0);
            assert(r.deep_view() + typedef_from(
                filename@,
                l.skip(i as int),
                (i + 1) as nat,
                TypedefState { lvl: lvl as nat, intd: intd, tt: tt },
            ) =~= r.deep_view());
        }
        r
    }
}

impl Rule for Typedef {
    fn verify(&self, filename: &str, content: &str) -> Vec<String> {
        Typedef::verify(self, filename, content)
    }
}

// ---------------------------------------------------------------------------
// Global
// ---------------------------------------------------------------------------

/// The scan state of the global-variable rule: the brace level, whether the
/// scan stands in a multi-line macro, and how many globals were seen.
pub ghost struct GlobalState {
    pub lvl: nat,
    pub inm: bool,
    pub cnt: nat,
}

/// A top-level line that declares a global variable.
pub open spec fn global_decl(line: Seq<char>) -> bool {
    &&& has_char(line, ';')
    &&& !has_char(line, '}')
    &&& (!has_char(line, '(') || has_char(line, '='))
    &&& !begins(trim_start(line), "//"@)
    &&& !begins(trim_start(line), "**"@)
}

/// One step of the global-variable scan.
pub open spec fn global_step(file: Seq<char>, line: Seq<char>, ln: nat, st: GlobalState) -> (Seq<
    Seq<char>,
>, GlobalState) {
    let lvl1 = if has_char(line, '{') {
        st.lvl + 1
    } else {
        st.lvl
    };
    let lvl2: nat = if has_char(line, '}') && lvl1 > 0 {
        (lvl1 - 1) as nat
    } else {
        lvl1
    };
    if lvl2 == 0 {
        if begins(trim_start(line), "#"@) {
            (
                Seq::empty(),
                GlobalState { lvl: lvl2, inm: ends(trim_end(line), "\\"@), cnt: st.cnt },
            )
        } else if !st.inm {
            if global_decl(line) {
                let prefix = line.take(first_char_at(line, '='));
                let d: Seq<Seq<char>> = if words(prefix).len() > 0 && !begins(
                    words(prefix).last(),
                    "g_"@,
                ) {
                    seq![
                        loc(file, ln) + "Macro name '"@ + words(prefix).last()
                            + "' must start with 'g_'."@,
                    ]
                } else {
                    Seq::empty()
                };
                (d, GlobalState { lvl: lvl2, inm: st.inm, cnt: st.cnt + 1 })
            } else {
                (Seq::empty(), GlobalState { lvl: lvl2, inm: st.inm, cnt: st.cnt })
            }
        } else {
            (
                Seq::empty(),
                GlobalState { lvl: lvl2, inm: ends(trim_end(line), "\\"@), cnt: st.cnt },
            )
        }
    } else {
        (Seq::empty(), GlobalState { lvl: lvl2, inm: st.inm, cnt: st.cnt })
    }
}

pub open spec fn global_from(file: Seq<char>, lines: Seq<Seq<char>>, ln: nat, st: GlobalState) -> Seq<
    Seq<char>,
>
    decreases lines.len(),
{
    if lines.len() == 0 {
        if st.cnt > 1 {
            seq![
                loc_file(file) + "One global variable per file maximum, found "@ + decimal(st.cnt)
                    + "."@,
            ]
        } else {
            Seq::empty()
        }
    } else {
        global_step(file, lines[0], ln, st).0 + global_from(
            file,
            lines.drop_first(),
            ln + 1,
            global_step(file, lines[0], ln, st).1,
        )
    }
}

/// Every diagnostic of the global-variable rule, with one final diagnostic
/// when more than one global was found.
pub open spec fn global_diags(file: Seq<char>, content: Seq<char>) -> Seq<Seq<char>> {
    global_from(file, line_seq(content), 1, GlobalState { lvl: 0, inm: false, cnt: 0 })
}

/// Checks that globals are named `g_...` and that a file holds at most one.
pub struct Global {}

impl Global {
    pub fn new() -> (r: Global) {
        Global {  }
    }

    #[verifier::rlimit(50)]
    pub fn verify(&self, filename: &str, content: &str) -> (r: Vec<String>)
        ensures
            r.deep_view() == global_diags(filename@, content@),
    {
        let lines = split_lines(content);
        let ghost l = lines.deep_view();
        let mut r: Vec<String> = Vec::new();
        let mut lvl: usize = 0;
        let mut inm: bool = false;
        let mut cnt: usize = 0;
        let mut i: usize = 0;
        proof {
            assert(l.skip(0) =~= l);
            assert(r.deep_view() =~= Seq::<Seq<char>>::empty());
            assert(r.deep_view() + global_from(
                filename@,
                l,
                1,
                GlobalState { lvl: 0, inm: false, cnt: 0 },
            ) =~= global_from(filename@, l, 1, GlobalState { lvl: 0, inm: false, cnt: 0 }));
        }
        while i < lines.len()
            invariant
                0 <= i <= lines@.len(),
                lvl <= i,
                cnt <= i,
                l == lines.deep_view(),
                lines@.len() == l.len(),
                global_diags(filename@, content@) == r.deep_view() + global_from(
                    filename@,
                    l.skip(i as int),
                    (i + 1) as nat,
                    GlobalState { lvl: lvl as nat, inm: inm, cnt: cnt as nat },
                ),
            decreases lines@.len() - i,
        {
            let ghost st = GlobalState { lvl: lvl as nat, inm: inm, cnt: cnt as nat };
            let line = &lines[i];
            proof {
                assert(l.skip(i as int)[0] =~= line@);
                assert(l.skip(i as int).drop_first() =~= l.skip(i + 1));
            }
            let ghost pre = r.deep_view();
            if contains_char(line, '{') {
                lvl = lvl + 1;
            }
            if contains_char(line, '}') && lvl > 0 {
                lvl = lvl - 1;
            }
            if lvl == 0 {
                if trimmed_begins_with(line, "#") {
                    inm = trim_end_ends_with(line, "\\");
                } else if !inm {
                    if contains_char(line, ';') && !contains_char(line, '}') && (!contains_char(
                        line,
                        '(',
                    ) || contains_char(line, '=')) && !trimmed_begins_with(line, "//")
                        && !trimmed_begins_with(line, "**") {
                        cnt = cnt + 1;
                        let f = find_char(line, '=');
                        let prefix = copy_range(line, 0, f);
                        let ws = split_words(&prefix);
                        if ws.len() > 0 {
                            proof {
                                assert(ws.deep_view()[ws@.len() - 1] =~= ws@[ws@.len() - 1]@);
                                assert(words(prefix@).last() == ws@[ws@.len() - 1]@);
                            }
                            let name = &ws[ws.len() - 1];
                            if !begins_with(name, "g_") {
                                let mut m = diag_prefix(filename, (i + 1) as u128);
                                m.append("Macro name '");
                                let a = chars_to_string(name);
                                m.append(a.as_str());
                                m.append("' must start with 'g_'.");
                                push_diag(&mut r, m);
                            }
                        }
                    }
                } else {
                    inm = trim_end_ends_with(line, "\\");
                }
            }
            proof {
                let (fe, st2) = global_step(filename@, line@, (i + 1) as nat, st);
                assert(GlobalState { lvl: lvl as nat, inm: inm, cnt: cnt as nat } == st2);
                assert(r.deep_view() =~= pre + fe);
                let rest = global_from(filename@, l.skip(i + 1), (i + 2) as nat, st2);
                assert((pre + fe) + rest =~= pre + (fe + rest));
            }
            i = i + 1;
        }
        if cnt > 1 {
            let mut m = diag_prefix_file(filename);
            m.append("One global variable per file maximum, found ");
            crate::text::append_decimal(&mut m, cnt as u128);
            m.append(".");
            let ghost pre = r.deep_view();
            push_diag(&mut r, m);
            proof {
                assert(l.skip(i as int).len() == 0);
                assert(r.deep_view() =~= pre + global_from(
                    filename@,
                    l.skip(i as int),
                    (i + 1) as nat,
                    GlobalState { lvl: lvl as nat, inm: inm, cnt: cnt as nat },
                ));
            }
        } else {
            proof {
                assert(l.skip(i as int).len() == 0);
                assert(r.deep_view() + global_from(
                    filename@,
                    l.skip(i as int),
                    (i + 1) as nat,
                    GlobalState { lvl: lvl as nat, inm: inm, cnt: cnt as nat },
                ) =~= r.deep_view());
            }
        }
        r
    }
}

impl Rule for Global {
    fn verify(&self, filename: &str, content: &str) -> Vec<String> {
        Global::verify(self, filename, content)
    }
}

} // verus!
