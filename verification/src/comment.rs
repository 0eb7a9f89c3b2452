//! The multi-line comment rule: `/*` and `*/` on their own lines, `**` on
//! every line between them, no nesting, and no comment left open.

use vstd::prelude::*;
use vstd::string::*;

use crate::Rule;
use crate::text::{
    begins, contains_sub, count_nonspace, diag_prefix, has_sub, line_seq, loc, nonspace_count,
    push_diag, split_lines, trim_start, trimmed_begins_with,
};

verus! {

/// Flags malformed multi-line comments.
pub struct MultiLinesComment {}

/// One step of the comment scan: a closing delimiter ends the comment (and is
/// flagged when nothing was open or it shares its line), an intermediary line
/// must start with `**`, an opening delimiter starts the comment (and is
/// flagged when one was already open or it shares its line).
pub open spec fn mlc_step(file: Seq<char>, line: Seq<char>, ln: nat, inc: bool) -> (Seq<Seq<char>>, bool) {
    let closingd = has_sub(line, "*/"@) && !has_sub(line, "/*"@);
    let d1: Seq<Seq<char>> = if closingd {
        (if !inc {
            seq![loc(file, ln) + "Unexpected comment end delimiter."@]
        } else {
            Seq::empty()
        }) + (if nonspace_count(line) != 2 {
            seq![loc(file, ln) + "Comment end delimiter must appear on its own line."@]
        } else {
            Seq::empty()
        })
    } else {
        Seq::empty()
    };
    let inc1 = if closingd {
        false
    } else {
        inc
    };
    let d2: Seq<Seq<char>> = if inc1 && !begins(trim_start(line), "**"@) {
        seq![loc(file, ln) + "Comment intermediary line must start with '**'."@]
    } else {
        Seq::empty()
    };
    let openingd = has_sub(line, "/*"@) && !has_sub(line, "*/"@);
    let d3: Seq<Seq<char>> = if openingd {
        (if inc1 {
            seq![loc(file, ln) + "Comments can't be nested."@]
        } else {
            Seq::empty()
        }) + (if !(nonspace_count(line) == 2 || (nonspace_count(line) == 3 && has_sub(
            line,
            "/**"@,
        ))) {
            seq![loc(file, ln) + "Comment start delimiter must appear on its own line."@]
        } else {
            Seq::empty()
        })
    } else {
        Seq::empty()
    };
    let inc2 = if openingd {
        true
    } else {
        inc1
    };
    (d1 + d2 + d3, inc2)
}

pub open spec fn mlc_from(file: Seq<char>, lines: Seq<Seq<char>>, ln: nat, inc: bool) -> Seq<
    Seq<char>,
>
    decreases lines.len(),
{
    if lines.len() == 0 {
        if inc {
            seq![loc(file, ln) + "Expected comment end delimiter."@]
        } else {
            Seq::empty()
        }
    } else {
        mlc_step(file, lines[0], ln, inc).0 + mlc_from(
            file,
            lines.drop_first(),
            ln + 1,
            mlc_step(file, lines[0], ln, inc).1,
        )
    }
}

/// Every diagnostic of the multi-line comment rule, in line order, with one
/// final diagnostic for a comment left open.
pub open spec fn mlc_diags(file: Seq<char>, content: Seq<char>) -> Seq<Seq<char>> {
    mlc_from(file, line_seq(content), 1, false)
}

fn emit_mlc(r: &mut Vec<String>, file: &str, line: &Vec<char>, ln: usize, inc: bool) -> (inc2:
    bool)
    ensures
        final(r).deep_view() == old(r).deep_view() + mlc_step(file@, line@, ln as nat, inc).0,
        inc2 == mlc_step(file@, line@, ln as nat, inc).1,
{
    let ghost pre = r.deep_view();
    let mut state = inc;
    let nws = count_nonspace(line);
    if contains_sub(line, "*/") && !contains_sub(line, "/*") {
        if !state {
            let mut m = diag_prefix(file, ln as u128);
            m.append("Unexpected comment end delimiter.");
            push_diag(r, m);
        }
        if nws != 2 {
            let mut m = diag_prefix(file, ln as u128);
            m.append("Comment end delimiter must appear on its own line.");
            push_diag(r, m);
        }
        state = false;
    }
    if state && !trimmed_begins_with(line, "**") {
        let mut m = diag_prefix(file, ln as u128);
        m.append("Comment intermediary line must start with '**'.");
        push_diag(r, m);
    }
    if contains_sub(line, "/*") && !contains_sub(line, "*/") {
        if state {
            let mut m = diag_prefix(file, ln as u128);
            m.append("Comments can't be nested.");
            push_diag(r, m);
        }
        if !(nws == 2 || (nws == 3 && contains_sub(line, "/**"))) {
            let mut m = diag_prefix(file, ln as u128);
            m.append("Comment start delimiter must appear on its own line.");
            push_diag(r, m);
        }
        state = true;
    }
    proof {
        assert(r.deep_view() =~= pre + mlc_step(file@, line@, ln as nat, inc).0);
    }
    state
}

/// Runs the multi-line comment scan over a whole file.
pub(crate) fn scan_mlc(filename: &str, content: &str) -> (r: Vec<String>)
    ensures
        r.deep_view() == mlc_diags(filename@, content@),
{
    let lines = split_lines(content);
    let ghost l = lines.deep_view();
    let mut r: Vec<String> = Vec::new();
    let mut inc: bool = false;
    let mut i: usize = 0;
    proof {
        assert(l.skip(0) =~= l);
        assert(r.deep_view() =~= Seq::<Seq<char>>::empty());
        assert(r.deep_view() + mlc_from(filename@, l, 1, false) =~= mlc_from(
            filename@,
            l,
            1,
            false,
        ));
    }
    while i < lines.len()
        invariant
            0 <= i <= lines@.len(),
            l == lines.deep_view(),
            lines@.len() == l.len(),
            mlc_diags(filename@, content@) == r.deep_view() + mlc_from(
                filename@,
                l.skip(i as int),
                (i + 1) as nat,
                inc,
            ),
        decreases lines@.len() - i,
    {
        let line = &lines[i];
        proof {
            assert(l.skip(i as int)[0] =~= line@);
            assert(l.skip(i as int).drop_first() =~= l.skip(i + 1));
        }
        let ghost pre = r.deep_view();
        let ghost inc0 = inc;
        inc = emit_mlc(&mut r, filename, line, i + 1, inc);
        proof {
            let (mid, st2) = mlc_step(filename@, line@, (i + 1) as nat, inc0);
            let rest = mlc_from(filename@, l.skip(i + 1), (i + 2) as nat, st2);
            assert((pre + mid) + rest =~= pre + (mid + rest));
        }
        i = i + 1;
    }
    if inc {
        let mut m = diag_prefix(filename, (i as u128) + 1);
        m.append("Expected comment end delimiter.");
        let ghost pre = r.deep_view();
        push_diag(&mut r, m);
        proof {
            assert(l.skip(i as int).len() == 0);
            assert(r.deep_view() =~= pre + mlc_from(
                filename@,
                l.skip(i as int),
                (i + 1) as nat,
                inc,
            ));
        }
    } else {
        proof {
            assert(l.skip(i as int).len() == 0);
            assert(r.deep_view() + mlc_from(filename@, l.skip(i as int), (i + 1) as nat, inc)
                =~= r.deep_view());
        }
    }
    r
}

impl MultiLinesComment {
    pub fn new() -> (r: MultiLinesComment) {
        MultiLinesComment {  }
    }

    pub fn verify(&self, filename: &str, content: &str) -> (r: Vec<String>)
        ensures
            r.deep_view() == mlc_diags(filename@, content@),
    {
        scan_mlc(filename, content)
    }
}

impl Rule for MultiLinesComment {
    fn verify(&self, filename: &str, content: &str) -> Vec<String> {
        MultiLinesComment::verify(self, filename, content)
    }
}

} // verus!
