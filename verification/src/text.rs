use vstd::prelude::*;
use vstd::string::{StrSliceExecFns, StringExecFns};

verus! {

/// `p` spaces.
pub open spec fn spaces(p: nat) -> Seq<char>
    decreases p,
{
    if p == 0 {
        Seq::empty()
    } else {
        spaces((p - 1) as nat).push(' ')
    }
}

/// The lines of `s`, accumulated left to right: a line ends at each `'\n'`
/// (dropping a `'\r'` that immediately precedes it), and a last unterminated
/// line counts only when it is non-empty — the splitting `str::lines` does.
pub open spec fn split_lines_rec(s: Seq<char>, cur: Seq<char>, acc: Seq<Seq<char>>) -> Seq<
    Seq<char>,
>
    decreases s.len(),
{
    if s.len() == 0 {
        if cur.len() == 0 {
            acc
        } else {
            acc.push(cur)
        }
    } else if s[0] == '\n' {
        let line = if cur.len() > 0 && cur.last() == '\r' {
            cur.drop_last()
        } else {
            cur
        };
        split_lines_rec(s.skip(1), Seq::empty(), acc.push(line))
    } else {
        split_lines_rec(s.skip(1), cur.push(s[0]), acc)
    }
}

/// The lines of `s`.
pub open spec fn text_lines(s: Seq<char>) -> Seq<Seq<char>> {
    split_lines_rec(s, Seq::empty(), Seq::empty())
}

/// The lines, each prefixed by `p` spaces, joined with single newlines;
/// empty when there is no line at all.
pub open spec fn join_padded(lines: Seq<Seq<char>>, p: nat) -> Seq<char>
    decreases lines.len(),
{
    if lines.len() == 0 {
        Seq::empty()
    } else if lines.len() == 1 {
        spaces(p) + lines[0]
    } else {
        join_padded(lines.drop_last(), p) + seq!['\n'] + spaces(p) + lines.last()
    }
}

/// What padding a text comes to: every line of it indented by `p` spaces.
pub open spec fn pad_string_spec(s: Seq<char>, p: nat) -> Seq<char> {
    join_padded(text_lines(s), p)
}

/// Indent every line of `displayable` by `padding` spaces: split it into
/// lines, prefix each with the spaces, and join them back with newlines.
pub fn pad_string(displayable: &str, padding: usize) -> (r: String)
    ensures
        r@ == pad_string_spec(displayable@, padding as nat),
{
    let len = displayable.unicode_len();
    let mut lines: Vec<&str> = Vec::new();
    let mut start: usize = 0;
    let mut i: usize = 0;
    proof {
        assert(displayable@.skip(0) =~= displayable@);
        assert(displayable@.subrange(0, 0) =~= Seq::<char>::empty());
        assert(lines@.map_values(|l: &str| l@) =~= Seq::<Seq<char>>::empty());
    }
    while i < len
        invariant
            start <= i <= len,
            len == displayable@.len(),
            text_lines(displayable@) == split_lines_rec(
                displayable@.skip(i as int),
                displayable@.subrange(start as int, i as int),
                lines@.map_values(|l: &str| l@),
            ),
        decreases len - i,
    {
        let ghost cur = displayable@.subrange(start as int, i as int);
        let ghost acc = lines@.map_values(|l: &str| l@);
        let c = displayable.get_char(i);
        proof {
            assert(displayable@.skip(i as int)[0] == displayable@[i as int]);
            assert(displayable@.skip(i as int).skip(1) =~= displayable@.skip(i as int + 1));
        }
        if c == '\n' {
            let end = if i > start && displayable.get_char(i - 1) == '\r' {
                i - 1
            } else {
                i
            };
            let line = displayable.substring_char(start, end);
            lines.push(line);
            proof {
                let stripped = if cur.len() > 0 && cur.last() == '\r' {
                    cur.drop_last()
                } else {
                    cur
                };
                if i > start && displayable@[i as int - 1] == '\r' {
                    assert(cur.last() == '\r');
                    assert(line@ =~= stripped);
                } else {
                    assert(line@ =~= stripped);
                }
                assert(lines@.map_values(|l: &str| l@) =~= acc.push(stripped));
                assert(displayable@.subrange(i as int + 1, i as int + 1) =~= Seq::<char>::empty());
            }
            start = i + 1;
        } else {
            proof {
                assert(cur.push(displayable@[i as int]) =~= displayable@.subrange(
                    start as int,
                    i as int + 1,
                ));
            }
        }
        i += 1;
    }
    proof {
        assert(displayable@.skip(len as int) =~= Seq::<char>::empty());
    }
    if start < len {
        let line = displayable.substring_char(start, len);
        proof {
            let acc = lines@.map_values(|l: &str| l@);
            assert(line@ == displayable@.subrange(start as int, len as int));
            assert(lines@.push(line).map_values(|l: &str| l@) =~= acc.push(line@));
        }
        lines.push(line);
    }
    let ghost lv = lines@.map_values(|l: &str| l@);
    proof {
        assert(lv == text_lines(displayable@));
    }

    let mut out = String::new();
    let mut idx: usize = 0;
    while idx < lines.len()
        invariant
            idx <= lines.len(),
            lv == lines@.map_values(|l: &str| l@),
            out@ == join_padded(lv.take(idx as int), padding as nat),
        decreases lines.len() - idx,
    {
        let ghost before = out@;
        if idx > 0 {
            out.append("\n");
        }
        let ghost base = out@;
        let mut sp: usize = 0;
        while sp < padding
            invariant
                sp <= padding,
                out@ == base + spaces(sp as nat),
            decreases padding - sp,
        {
            out.append(" ");
            proof {
                reveal_strlit(" ");
                assert(base + spaces(sp as nat) + " "@ =~= base + spaces(sp as nat + 1));
            }
            sp += 1;
        }
        let line = lines[idx];
        out.append(line);
        proof {
            reveal_strlit("\n");
            assert(lv.take(idx as int + 1).drop_last() =~= lv.take(idx as int));
            assert(lv.take(idx as int + 1).last() == lv[idx as int]);
            if idx > 0 {
                assert(base =~= before + seq!['\n']);
                assert(out@ =~= join_padded(lv.take(idx as int + 1), padding as nat));
            } else {
                assert(base =~= before);
                assert(out@ =~= join_padded(lv.take(idx as int + 1), padding as nat));
            }
        }
        idx += 1;
    }
    proof {
        assert(lv.take(lines@.len() as int) =~= lv);
    }
    out
}

} // verus!
