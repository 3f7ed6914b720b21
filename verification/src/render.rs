//! Human-readable rendering of the duplicate report: one block per group
//! with its occurrence count, its paths, and its digest. The whole text is
//! built here; printing it is the caller's business.

use vstd::prelude::*;
use vstd::string::StringExecFns;

use crate::group::FileHashEntry;
use crate::group::GroupView;
use crate::group::entry_view;
use crate::group::entry_views;

verus! {

/// The decimal digit character for a value below ten.
pub open spec fn dec_digit(n: nat) -> char
    recommends
        n < 10,
{
    ((48 + n) as u8) as char
}

/// The decimal rendering of a natural number, most significant digit
/// first, no leading zeros (a single zero for zero).
pub open spec fn dec_str(n: nat) -> Seq<char>
    decreases n,
{
    if n < 10 {
        seq![dec_digit(n)]
    } else {
        dec_str(n / 10).push(dec_digit(n % 10))
    }
}

/// One rendered path line.
pub open spec fn render_path_line(p: Seq<char>) -> Seq<char> {
    "Path: "@ + p + "\n"@
}

/// The rendered path lines of a group, in order.
pub open spec fn render_paths(ps: Seq<Seq<char>>) -> Seq<char>
    decreases ps.len(),
{
    if ps.len() == 0 {
        Seq::empty()
    } else {
        render_paths(ps.drop_last()) + render_path_line(ps.last())
    }
}

/// One rendered group block: occurrence count, paths, digest, and a
/// blank separator line.
pub open spec fn render_group(g: GroupView) -> Seq<char> {
    "Found "@ + dec_str(g.1.len()) + " occurrences:\n"@ + render_paths(g.1) + "MD5 Hash: "@ + g.0
        + "\n\n"@
}

/// The whole human-readable report, one block per group, in order.
pub open spec fn render_human(gs: Seq<GroupView>) -> Seq<char>
    decreases gs.len(),
{
    if gs.len() == 0 {
        Seq::empty()
    } else {
        render_human(gs.drop_last()) + render_group(gs.last())
    }
}

/// Appending a path extends its rendering at the end.
proof fn lemma_render_paths_push(ps: Seq<Seq<char>>, p: Seq<char>)
    ensures
        render_paths(ps.push(p)) == render_paths(ps) + render_path_line(p),
{
    assert(ps.push(p).drop_last() =~= ps);
    assert(ps.push(p).last() == p);
}

/// Appending a group extends the report at the end.
proof fn lemma_render_human_push(gs: Seq<GroupView>, g: GroupView)
    ensures
        render_human(gs.push(g)) == render_human(gs) + render_group(g),
{
    assert(gs.push(g).drop_last() =~= gs);
    assert(gs.push(g).last() == g);
}

/// The one-character string for a decimal digit.
fn digit_str(d: usize) -> (r: &'static str)
    requires
        d < 10,
    ensures
        r@ == seq![dec_digit(d as nat)],
{
    let r: &'static str = match d {
        0 => "0",
        1 => "1",
        2 => "2",
        3 => "3",
        4 => "4",
        5 => "5",
        6 => "6",
        7 => "7",
        8 => "8",
        _ => "9",
    };
    proof {
        reveal_strlit("0");
        reveal_strlit("1");
        reveal_strlit("2");
        reveal_strlit("3");
        reveal_strlit("4");
        reveal_strlit("5");
        reveal_strlit("6");
        reveal_strlit("7");
        reveal_strlit("8");
        reveal_strlit("9");
        assert(r@ =~= seq![dec_digit(d as nat)]);
    }
    r
}

/// Renders a count in decimal.
fn usize_to_string(n: usize) -> (r: String)
    ensures
        r@ == dec_str(n as nat),
    decreases n,
{
    if n < 10 {
        String::from_str(digit_str(n))
    } else {
        let mut s = usize_to_string(n / 10);
        s.append(digit_str(n % 10));
        proof {
            assert(dec_str((n / 10) as nat).push(dec_digit((n % 10) as nat)) =~= dec_str(
                (n / 10) as nat,
            ) + seq![dec_digit((n % 10) as nat)]);
        }
        s
    }
}

/// Renders the whole duplicate report as human-readable text.
pub fn render_human_output(entries: &Vec<FileHashEntry>) -> (r: String)
    ensures
        r@ == render_human(entry_views(entries@)),
{
    let ghost gvs = entry_views(entries@);
    let mut acc = String::new();
    let mut k: usize = 0;
    proof {
        assert(render_human(gvs.take(0)) =~= Seq::<char>::empty());
    }
    while k < entries.len()
        invariant
            k <= entries@.len(),
            gvs == entry_views(entries@),
            acc@ == render_human(gvs.take(k as int)),
        decreases entries@.len() - k,
    {
        let e: &FileHashEntry = &entries[k];
        let ghost g = entry_view(*e);
        proof {
            assert(gvs[k as int] == g);
            assert(gvs.take(k as int + 1) =~= gvs.take(k as int).push(g));
            lemma_render_human_push(gvs.take(k as int), g);
            reveal_strlit("Found ");
            reveal_strlit(" occurrences:\n");
            reveal_strlit("MD5 Hash: ");
            reveal_strlit("\n\n");
        }
        acc.append("Found ");
        let count = usize_to_string(e.paths.len());
        acc.append(count.as_str());
        acc.append(" occurrences:\n");
        proof {
            assert(g.1.len() == e.paths@.len());
        }
        let ghost block_head = acc@;
        let mut p: usize = 0;
        proof {
            assert(render_paths(g.1.take(0)) =~= Seq::<char>::empty());
            assert(acc@ =~= block_head + render_paths(g.1.take(0)));
        }
        while p < e.paths.len()
            invariant
                p <= e.paths@.len(),
                g == entry_view(*e),
                g.1.len() == e.paths@.len(),
                acc@ == block_head + render_paths(g.1.take(p as int)),
            decreases e.paths@.len() - p,
        {
            proof {
                reveal_strlit("Path: ");
                reveal_strlit("\n");
                assert(g.1[p as int] == e.paths@[p as int]@);
                assert(g.1.take(p as int + 1) =~= g.1.take(p as int).push(g.1[p as int]));
                lemma_render_paths_push(g.1.take(p as int), g.1[p as int]);
            }
            acc.append("Path: ");
            let path: &String = &e.paths[p];
            acc.append(path.as_str());
            acc.append("\n");
            proof {
                assert(acc@ =~= block_head + render_paths(g.1.take(p as int + 1)));
            }
            p = p + 1;
        }
        proof {
            assert(g.1.take(g.1.len() as int) =~= g.1);
        }
        acc.append("MD5 Hash: ");
        let hash: &String = &e.hash;
        acc.append(hash.as_str());
        acc.append("\n\n");
        proof {
            assert(acc@ =~= render_human(gvs.take(k as int)) + render_group(g));
            assert(acc@ =~= render_human(gvs.take(k as int + 1)));
        }
        k = k + 1;
    }
    proof {
        assert(gvs.take(gvs.len() as int) =~= gvs);
    }
    acc
}

} // verus!
