//! Loaders: turn the already-read lines of the two input files into the
//! initial sharded map and the operation trace. Malformed lines are
//! skipped, never an error; the surrounding program only reads the files
//! and hands the lines in.

use vstd::prelude::*;
use crate::ops::{Op, OpModel, parse_op_spec, parse_pair_spec, parse_op_line, parse_initial_line};
use crate::smap::{ShardedMap, loaded, pair_views};

verus! {

/// The views of a sequence of lines.
pub open spec fn line_views(lines: Seq<String>) -> Seq<Seq<char>> {
    lines.map(|i: int, l: String| l@)
}

/// The views of a sequence of operations.
pub open spec fn op_views(ops: Seq<Op>) -> Seq<OpModel> {
    ops.map(|i: int, op: Op| op@)
}

/// The pairs a dataset parses to, in line order, malformed lines skipped.
pub open spec fn parsed_pairs(lines: Seq<Seq<char>>) -> Seq<(Seq<char>, Seq<char>)>
    decreases lines.len(),
{
    if lines.len() == 0 {
        Seq::empty()
    } else {
        parsed_pairs(lines.drop_last()) + (match parse_pair_spec(lines.last()) {
            Some(p) => seq![p],
            None => Seq::empty(),
        })
    }
}

/// The operations a trace parses to, in line order, malformed lines
/// skipped.
pub open spec fn parsed_ops(lines: Seq<Seq<char>>) -> Seq<OpModel>
    decreases lines.len(),
{
    if lines.len() == 0 {
        Seq::empty()
    } else {
        parsed_ops(lines.drop_last()) + (match parse_op_spec(lines.last()) {
            Some(op) => seq![op],
            None => Seq::empty(),
        })
    }
}

/// Loads the initial dataset into a fresh map of `nshards` shards: parses
/// every line, skips the malformed ones, and inserts the pairs in order,
/// so the last value for a key wins.
pub fn load_initial(lines: &Vec<String>, nshards: usize) -> (m: ShardedMap)
    requires
        nshards >= 1,
    ensures
        m.wf(),
        m.num_shards() == nshards,
        m@ == loaded(parsed_pairs(line_views(lines@))),
{
    let mut pairs: Vec<(String, String)> = Vec::new();
    let mut i: usize = 0;
    proof {
        assert(line_views(lines@).take(0) =~= Seq::<Seq<char>>::empty());
        assert(pair_views(pairs@) =~= Seq::<(Seq<char>, Seq<char>)>::empty());
    }
    while i < lines.len()
        invariant
            i <= lines@.len(),
            pair_views(pairs@) == parsed_pairs(line_views(lines@).take(i as int)),
        decreases lines@.len() - i,
    {
        let ghost lv = line_views(lines@);
        proof {
            assert(lv.take(i + 1).drop_last() =~= lv.take(i as int));
            assert(lv.take(i + 1).last() == lines@[i as int]@);
        }
        let line: &String = &lines[i];
        match parse_initial_line(line.as_str()) {
            Some(p) => {
                let ghost pv = (p.0@, p.1@);
                let ghost old_pairs = pairs@;
                pairs.push(p);
                proof {
                    assert(pair_views(pairs@) =~= pair_views(old_pairs) + seq![pv]);
                    assert(pair_views(pairs@) =~= parsed_pairs(lv.take(i + 1)));
                }
            },
            None => {
                proof {
                    assert(pair_views(pairs@) =~= parsed_pairs(lv.take(i + 1)));
                }
            },
        }
        i = i + 1;
    }
    proof {
        assert(line_views(lines@).take(lines@.len() as int) =~= line_views(lines@));
    }
    ShardedMap::bulk_load(&pairs, nshards)
}

/// Loads the operation trace: parses every line in order and skips the
/// malformed ones.
pub fn load_ops(lines: &Vec<String>) -> (ops: Vec<Op>)
    ensures
        op_views(ops@) == parsed_ops(line_views(lines@)),
{
    let mut ops: Vec<Op> = Vec::new();
    let mut i: usize = 0;
    proof {
        assert(line_views(lines@).take(0) =~= Seq::<Seq<char>>::empty());
        assert(op_views(ops@) =~= Seq::<OpModel>::empty());
    }
    while i < lines.len()
        invariant
            i <= lines@.len(),
            op_views(ops@) == parsed_ops(line_views(lines@).take(i as int)),
        decreases lines@.len() - i,
    {
        let ghost lv = line_views(lines@);
        proof {
            assert(lv.take(i + 1).drop_last() =~= lv.take(i as int));
            assert(lv.take(i + 1).last() == lines@[i as int]@);
        }
        let line: &String = &lines[i];
        match parse_op_line(line.as_str()) {
            Some(op) => {
                let ghost ov = op@;
                let ghost old_ops = ops@;
                ops.push(op);
                proof {
                    assert(op_views(ops@) =~= op_views(old_ops) + seq![ov]);
                    assert(op_views(ops@) =~= parsed_ops(lv.take(i + 1)));
                }
            },
            None => {
                proof {
                    assert(op_views(ops@) =~= parsed_ops(lv.take(i + 1)));
                }
            },
        }
        i = i + 1;
    }
    proof {
        assert(line_views(lines@).take(lines@.len() as int) =~= line_views(lines@));
    }
    ops
}

} // verus!
