//! Operations of the replayed trace, and the parsers for the two input
//! formats: the tab-separated initial dataset (one `code<TAB>url` pair per
//! line) and the operation trace (`G <key>` or `S <key> <value>` per line,
//! tokens separated by Unicode whitespace). Malformed lines parse to
//! nothing and are skipped by the loaders, never an error. A `Set` value
//! keeps its inner whitespace exactly as written; only leading and
//! trailing separators are trimmed.

use vstd::prelude::*;

verus! {

/// One operation of the trace: `Get` is a lookup (a `G` record), `Put`
/// an upsert (an `S`, set, record).
#[derive(Debug)]
pub enum Op {
    Get(String),
    Put(String, String),
}

/// The mathematical form of an operation: its key (and value) as
/// character sequences.
pub enum OpModel {
    Get(Seq<char>),
    Put(Seq<char>, Seq<char>),
}

impl View for Op {
    type V = OpModel;

    open spec fn view(&self) -> OpModel {
        match self {
            Op::Get(k) => OpModel::Get(k@),
            Op::Put(k, v) => OpModel::Put(k@, v@),
        }
    }
}

/// Token separators of a trace line: the characters with Unicode's
/// `White_Space` property.
pub open spec fn is_sep(c: char) -> bool {
    let u = c as u32;
    ||| u == 0x09
    ||| u == 0x0A
    ||| u == 0x0B
    ||| u == 0x0C
    ||| u == 0x0D
    ||| u == 0x20
    ||| u == 0x85
    ||| u == 0xA0
    ||| u == 0x1680
    ||| (0x2000 <= u && u <= 0x200A)
    ||| u == 0x2028
    ||| u == 0x2029
    ||| u == 0x202F
    ||| u == 0x205F
    ||| u == 0x3000
}

/// First position at or after `i` that is not a separator.
pub open spec fn skip_seps(s: Seq<char>, i: int) -> int
    recommends
        0 <= i <= s.len(),
    decreases s.len() - i,
{
    if i < s.len() && is_sep(s[i]) {
        skip_seps(s, i + 1)
    } else {
        i
    }
}

/// First position at or after `i` that ends the current token: a
/// separator, or the end of the line.
pub open spec fn token_end(s: Seq<char>, i: int) -> int
    recommends
        0 <= i <= s.len(),
    decreases s.len() - i,
{
    if i < s.len() && !is_sep(s[i]) {
        token_end(s, i + 1)
    } else {
        i
    }
}

/// The line's length with trailing separators trimmed.
pub open spec fn rstrip(s: Seq<char>) -> int
    decreases s.len(),
{
    if s.len() > 0 && is_sep(s.last()) {
        rstrip(s.drop_last())
    } else {
        s.len() as int
    }
}

/// What a trace line parses to. A line is `G <key>` (a lookup; anything
/// after the key is ignored) or `S <key> <value>` (an upsert; the value
/// runs from the first non-separator after the key to the trimmed end of
/// the line, inner whitespace preserved). Anything else — an empty line,
/// an unknown command, a missing field — parses to nothing.
pub open spec fn parse_op_spec(s: Seq<char>) -> Option<OpModel> {
    let c0 = skip_seps(s, 0);
    let c1 = token_end(s, c0);
    let k0 = skip_seps(s, c1);
    let k1 = token_end(s, k0);
    if c0 == c1 {
        None
    } else if s.subrange(c0, c1) == seq!['G'] {
        if k0 == k1 {
            None
        } else {
            Some(OpModel::Get(s.subrange(k0, k1)))
        }
    } else if s.subrange(c0, c1) == seq!['S'] {
        if k0 == k1 {
            None
        } else {
            let v0 = skip_seps(s, k1);
            let v1 = rstrip(s);
            if v0 >= v1 {
                None
            } else {
                Some(OpModel::Put(s.subrange(k0, k1), s.subrange(v0, v1)))
            }
        }
    } else {
        None
    }
}

/// What a dataset line parses to: the text before the first tab and the
/// text between the first and second tab (or the end of the line). A line
/// with no tab has no second field and parses to nothing.
pub open spec fn parse_pair_spec(s: Seq<char>) -> Option<(Seq<char>, Seq<char>)> {
    let t0 = next_tab(s, 0);
    if t0 == s.len() {
        None
    } else {
        Some((s.subrange(0, t0), s.subrange(t0 + 1, next_tab(s, t0 + 1))))
    }
}

/// First position at or after `i` holding a tab, or the end of the line.
pub open spec fn next_tab(s: Seq<char>, i: int) -> int
    recommends
        0 <= i <= s.len(),
    decreases s.len() - i,
{
    if i < s.len() && s[i] != '\t' {
        next_tab(s, i + 1)
    } else {
        i
    }
}

fn is_sep_char(c: char) -> (b: bool)
    ensures
        b == is_sep(c),
{
    let u = c as u32;
    u == 0x09 || u == 0x0A || u == 0x0B || u == 0x0C || u == 0x0D || u == 0x20 || u == 0x85
        || u == 0xA0 || u == 0x1680 || (0x2000 <= u && u <= 0x200A) || u == 0x2028 || u == 0x2029
        || u == 0x202F || u == 0x205F || u == 0x3000
}

fn scan_skip_seps(s: &str, from: usize, n: usize) -> (j: usize)
    requires
        n == s@.len(),
        from <= n,
    ensures
        j as int == skip_seps(s@, from as int),
        from <= j <= n,
{
    let mut j = from;
    loop
        invariant
            from <= j <= n,
            n == s@.len(),
            skip_seps(s@, from as int) == skip_seps(s@, j as int),
        ensures
            from <= j <= n,
            j as int == skip_seps(s@, from as int),
        decreases n - j,
    {
        if j == n {
            break;
        }
        let c = s.get_char(j);
        if !is_sep_char(c) {
            break;
        }
        j = j + 1;
    }
    j
}

fn scan_token_end(s: &str, from: usize, n: usize) -> (j: usize)
    requires
        n == s@.len(),
        from <= n,
    ensures
        j as int == token_end(s@, from as int),
        from <= j <= n,
{
    let mut j = from;
    loop
        invariant
            from <= j <= n,
            n == s@.len(),
            token_end(s@, from as int) == token_end(s@, j as int),
        ensures
            from <= j <= n,
            j as int == token_end(s@, from as int),
        decreases n - j,
    {
        if j == n {
            break;
        }
        let c = s.get_char(j);
        if is_sep_char(c) {
            break;
        }
        j = j + 1;
    }
    j
}

fn scan_rstrip(s: &str, n: usize) -> (j: usize)
    requires
        n == s@.len(),
    ensures
        j as int == rstrip(s@),
        j <= n,
{
    let mut j = n;
    proof {
        assert(s@.take(n as int) =~= s@);
    }
    loop
        invariant
            j <= n,
            n == s@.len(),
            rstrip(s@) == rstrip(s@.take(j as int)),
        ensures
            j <= n,
            j as int == rstrip(s@),
        decreases j,
    {
        if j == 0 {
            proof {
                assert(s@.take(0) =~= Seq::<char>::empty());
            }
            break;
        }
        let c = s.get_char(j - 1);
        proof {
            assert(s@.take(j as int).last() == s@[j - 1]);
            assert(s@.take(j as int).drop_last() =~= s@.take(j - 1));
        }
        if !is_sep_char(c) {
            break;
        }
        j = j - 1;
    }
    j
}

fn scan_next_tab(s: &str, from: usize, n: usize) -> (j: usize)
    requires
        n == s@.len(),
        from <= n,
    ensures
        j as int == next_tab(s@, from as int),
        from <= j <= n,
{
    let mut j = from;
    loop
        invariant
            from <= j <= n,
            n == s@.len(),
            next_tab(s@, from as int) == next_tab(s@, j as int),
        ensures
            from <= j <= n,
            j as int == next_tab(s@, from as int),
        decreases n - j,
    {
        if j == n {
            break;
        }
        let c = s.get_char(j);
        if c == '\t' {
            break;
        }
        j = j + 1;
    }
    j
}

/// Parses one trace line; a malformed line gives nothing.
pub fn parse_op_line(s: &str) -> (r: Option<Op>)
    ensures
        match r {
            Some(op) => parse_op_spec(s@) == Some(op@),
            None => parse_op_spec(s@) is None,
        },
{
    let n = s.unicode_len();
    let c0 = scan_skip_seps(s, 0, n);
    let c1 = scan_token_end(s, c0, n);
    if c0 == c1 {
        return None;
    }
    let cmd_is_g = c1 - c0 == 1 && s.get_char(c0) == 'G';
    let cmd_is_s = c1 - c0 == 1 && s.get_char(c0) == 'S';
    proof {
        if cmd_is_g {
            assert(s@.subrange(c0 as int, c1 as int) =~= seq!['G']);
        } else {
            if s@.subrange(c0 as int, c1 as int) == seq!['G'] {
                assert(s@.subrange(c0 as int, c1 as int).len() == 1);
                assert(s@.subrange(c0 as int, c1 as int)[0] == s@[c0 as int]);
                assert(false);
            }
        }
        if cmd_is_s {
            assert(s@.subrange(c0 as int, c1 as int) =~= seq!['S']);
        } else {
            if s@.subrange(c0 as int, c1 as int) == seq!['S'] {
                assert(s@.subrange(c0 as int, c1 as int).len() == 1);
                assert(s@.subrange(c0 as int, c1 as int)[0] == s@[c0 as int]);
                assert(false);
            }
        }
    }
    if !cmd_is_g && !cmd_is_s {
        return None;
    }
    let k0 = scan_skip_seps(s, c1, n);
    let k1 = scan_token_end(s, k0, n);
    if k0 == k1 {
        return None;
    }
    let key = s.substring_char(k0, k1).to_owned();
    if cmd_is_g {
        return Some(Op::Get(key));
    }
    let v0 = scan_skip_seps(s, k1, n);
    let v1 = scan_rstrip(s, n);
    if v0 >= v1 {
        return None;
    }
    let value = s.substring_char(v0, v1).to_owned();
    Some(Op::Put(key, value))
}

/// Parses one dataset line; a line without a second field gives nothing.
pub fn parse_initial_line(s: &str) -> (r: Option<(String, String)>)
    ensures
        match r {
            Some(p) => parse_pair_spec(s@) == Some((p.0@, p.1@)),
            None => parse_pair_spec(s@) is None,
        },
{
    let n = s.unicode_len();
    let t0 = scan_next_tab(s, 0, n);
    if t0 == n {
        return None;
    }
    let t1 = scan_next_tab(s, t0 + 1, n);
    let code = s.substring_char(0, t0).to_owned();
    let url = s.substring_char(t0 + 1, t1).to_owned();
    Some((code, url))
}

} // verus!
