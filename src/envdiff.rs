use vstd::prelude::*;
use vstd::slice::slice_to_vec;

use crate::error::SetupError;
use crate::pathlist::{
    filter_path_value, is_path_name, is_path_variable, law_prepend_again, normalized, LIST_DELIMITER,
};
use crate::text::{
    bytes_contain, bytes_eq, bytes_eq_ignore_case, contains_seq, eq_ignore_case, split_bytes,
    split_on, views,
};

verus! {

/// The byte between the stages of a captured transcript (form feed).
pub const STAGE_DELIMITER: u8 = 0x0c;

/// The byte that ends a line.
pub const NEWLINE: u8 = 0x0a;

/// The byte between a variable's name and its value (`=`).
pub const ASSIGN: u8 = 0x3d;

/// One environment variable: its name and its value.
pub type EnvVar = (Vec<u8>, Vec<u8>);

/// The views of a sequence of variables.
pub open spec fn var_views(v: Seq<EnvVar>) -> Seq<(Seq<u8>, Seq<u8>)> {
    v.map_values(|e: EnvVar| (e.0@, e.1@))
}

/// The marker of an error line: `[ERROR`.
pub open spec fn error_marker() -> Seq<u8> {
    seq![0x5bu8, 0x45, 0x52, 0x52, 0x4f, 0x52]
}

/// The usage line that the configuration script prints on some successful
/// runs too: `Error in script usage. the correct usage is:`.
pub open spec fn benign_usage_line() -> Seq<u8> {
    seq![
        0x45u8, 0x72, 0x72, 0x6f, 0x72, 0x20, 0x69, 0x6e, 0x20, 0x73, 0x63, 0x72, 0x69, 0x70,
        0x74, 0x20, 0x75, 0x73, 0x61, 0x67, 0x65, 0x2e, 0x20, 0x74, 0x68, 0x65, 0x20, 0x63,
        0x6f, 0x72, 0x72, 0x65, 0x63, 0x74, 0x20, 0x75, 0x73, 0x61, 0x67, 0x65, 0x20, 0x69,
        0x73, 0x3a,
    ]
}

/// A line of the script's own output that reports a usage error.
pub open spec fn is_error_line(l: Seq<u8>) -> bool {
    contains_seq(l, error_marker()) && !contains_seq(l, benign_usage_line())
}

/// The lines of `ls` that report usage errors, in order.
pub open spec fn error_lines(ls: Seq<Seq<u8>>) -> Seq<Seq<u8>>
    decreases ls.len(),
{
    if ls.len() == 0 {
        Seq::empty()
    } else if is_error_line(ls.last()) {
        error_lines(ls.drop_last()).push(ls.last())
    } else {
        error_lines(ls.drop_last())
    }
}

/// `k` is the first position of `b` in `l`.
pub open spec fn is_first(l: Seq<u8>, b: u8, k: int) -> bool {
    0 <= k < l.len() && l[k] == b && forall|j: int| 0 <= j < k ==> l[j] != b
}

/// The first position of `b` in `l`.
pub open spec fn first_index(l: Seq<u8>, b: u8) -> int {
    choose|k: int| is_first(l, b, k)
}

/// A line `name=value` split at its first `=`.
pub open spec fn entry_of(l: Seq<u8>) -> (Seq<u8>, Seq<u8>) {
    let k = first_index(l, ASSIGN);
    (l.take(k), l.skip(k + 1))
}

/// The variables that lines hold, in order; a line without `=` holds none.
pub open spec fn entries_of_lines(ls: Seq<Seq<u8>>) -> Seq<(Seq<u8>, Seq<u8>)>
    decreases ls.len(),
{
    if ls.len() == 0 {
        Seq::empty()
    } else if ls.last().contains(ASSIGN) {
        entries_of_lines(ls.drop_last()).push(entry_of(ls.last()))
    } else {
        entries_of_lines(ls.drop_last())
    }
}

/// The variables of an environment dump.
pub open spec fn env_entries(seg: Seq<u8>) -> Seq<(Seq<u8>, Seq<u8>)> {
    entries_of_lines(split_on(seg, NEWLINE))
}

/// The value of `n` in a snapshot: a later line for the same name wins.
pub open spec fn lookup(es: Seq<(Seq<u8>, Seq<u8>)>, n: Seq<u8>) -> Option<Seq<u8>>
    decreases es.len(),
{
    if es.len() == 0 {
        None
    } else if es.last().0 == n {
        Some(es.last().1)
    } else {
        lookup(es.drop_last(), n)
    }
}

/// The script set `n` to `v`: it was absent before, or held a value that
/// differs from `v` other than in the case of ASCII letters.
pub open spec fn changed(before: Seq<(Seq<u8>, Seq<u8>)>, n: Seq<u8>, v: Seq<u8>) -> bool {
    match lookup(before, n) {
        None => true,
        Some(o) => !eq_ignore_case(o, v),
    }
}

/// The value to export for `n`: path lists lose their repeated entries.
pub open spec fn applied_value(n: Seq<u8>, v: Seq<u8>) -> Seq<u8> {
    if is_path_name(n) {
        normalized(v)
    } else {
        v
    }
}

/// The updates to export, in the order of the `after` snapshot.
pub open spec fn env_diff(
    before: Seq<(Seq<u8>, Seq<u8>)>,
    after: Seq<(Seq<u8>, Seq<u8>)>,
) -> Seq<(Seq<u8>, Seq<u8>)>
    decreases after.len(),
{
    if after.len() == 0 {
        Seq::empty()
    } else {
        let d = env_diff(before, after.drop_last());
        let e = after.last();
        if changed(before, e.0, e.1) {
            d.push((e.0, applied_value(e.0, e.1)))
        } else {
            d
        }
    }
}

/// The three stages of a captured transcript: the environment before the
/// script ran, the script's own output, the environment after it.
pub struct Transcript {
    pub before: Vec<u8>,
    pub script: Vec<u8>,
    pub after: Vec<u8>,
}

/// Splits captured output into its three stages; any other number of stages
/// is malformed output.
pub fn split_transcript(output: &[u8]) -> (r: Result<Transcript, SetupError>)
    ensures
        match r {
            Ok(t) => split_on(output@, STAGE_DELIMITER).len() == 3 && t.before@ == split_on(
                output@,
                STAGE_DELIMITER,
            )[0] && t.script@ == split_on(output@, STAGE_DELIMITER)[1] && t.after@ == split_on(
                output@,
                STAGE_DELIMITER,
            )[2],
            Err(e) => split_on(output@, STAGE_DELIMITER).len() != 3 && e == SetupError::MalformedOutput,
        },
{
    let mut parts = split_bytes(output, STAGE_DELIMITER);
    if parts.len() != 3 {
        return Err(SetupError::MalformedOutput);
    }
    let ghost ps = views(parts@);
    assert(ps[0] == parts@[0]@ && ps[1] == parts@[1]@ && ps[2] == parts@[2]@);
    let after = parts.pop().unwrap();
    let script = parts.pop().unwrap();
    let before = parts.pop().unwrap();
    Ok(Transcript { before, script, after })
}

/// The lines of the script's own output that report usage errors, verbatim.
pub fn usage_errors(script: &[u8]) -> (r: Vec<Vec<u8>>)
    ensures
        views(r@) == error_lines(split_on(script@, NEWLINE)),
{
    let marker: Vec<u8> = vec![0x5bu8, 0x45, 0x52, 0x52, 0x4f, 0x52];
    let benign: Vec<u8> = vec![
        0x45u8, 0x72, 0x72, 0x6f, 0x72, 0x20, 0x69, 0x6e, 0x20, 0x73, 0x63, 0x72, 0x69, 0x70,
        0x74, 0x20, 0x75, 0x73, 0x61, 0x67, 0x65, 0x2e, 0x20, 0x74, 0x68, 0x65, 0x20, 0x63,
        0x6f, 0x72, 0x72, 0x65, 0x63, 0x74, 0x20, 0x75, 0x73, 0x61, 0x67, 0x65, 0x20, 0x69,
        0x73, 0x3a,
    ];
    assert(marker@ =~= error_marker());
    assert(benign@ =~= benign_usage_line());
    let lines = split_bytes(script, NEWLINE);
    let mut r: Vec<Vec<u8>> = Vec::new();
    let mut i: usize = 0;
    assert(views(lines@).subrange(0, 0) =~= Seq::<Seq<u8>>::empty());
    assert(views(r@) =~= Seq::<Seq<u8>>::empty());
    while i < lines.len()
        invariant
            marker@ == error_marker(),
            benign@ == benign_usage_line(),
            0 <= i <= lines@.len(),
            views(r@) == error_lines(views(lines@).subrange(0, i as int)),
        decreases lines@.len() - i,
    {
        let ghost sub = views(lines@).subrange(0, i + 1);
        assert(sub.drop_last() =~= views(lines@).subrange(0, i as int));
        assert(sub.last() == lines@[i as int]@);
        let line = lines[i].as_slice();
        if bytes_contain(line, marker.as_slice()) && !bytes_contain(line, benign.as_slice()) {
            let ghost old_r = r@;
            r.push(slice_to_vec(line));
            assert(views(r@) =~= views(old_r).push(line@));
        }
        i += 1;
    }
    assert(views(lines@).subrange(0, lines@.len() as int) =~= views(lines@));
    r
}

/// Splits a line `name=value` at its first `=`, or gives `None` for a line
/// without one.
pub fn parse_line(l: &[u8]) -> (r: Option<EnvVar>)
    ensures
        match r {
            Some(e) => l@.contains(ASSIGN) && (e.0@, e.1@) == entry_of(l@),
            None => !l@.contains(ASSIGN),
        },
{
    let mut k: usize = 0;
    while k < l.len()
        invariant
            0 <= k <= l@.len(),
            forall|j: int| 0 <= j < k ==> l@[j] != ASSIGN,
        decreases l@.len() - k,
    {
        if l[k] == ASSIGN {
            assert(is_first(l@, ASSIGN, k as int));
            assert(first_index(l@, ASSIGN) == k) by {
                let c = first_index(l@, ASSIGN);
                assert(is_first(l@, ASSIGN, c));
                if c < k {
                    assert(l@[c] != ASSIGN);
                }
                if c > k {
                    assert(l@[k as int] != ASSIGN);
                }
            }
            let mut name: Vec<u8> = Vec::new();
            let mut j: usize = 0;
            while j < k
                invariant
                    0 <= j <= k < l@.len(),
                    name@ == l@.subrange(0, j as int),
                decreases k - j,
            {
                name.push(l[j]);
                assert(name@ =~= l@.subrange(0, j + 1));
                j += 1;
            }
            let mut value: Vec<u8> = Vec::new();
            let mut j: usize = k + 1;
            while j < l.len()
                invariant
                    k + 1 <= j <= l@.len(),
                    value@ == l@.subrange(k + 1, j as int),
                decreases l@.len() - j,
            {
                value.push(l[j]);
                assert(value@ =~= l@.subrange(k + 1, j + 1));
                j += 1;
            }
            assert(name@ =~= l@.take(k as int));
            assert(value@ =~= l@.skip(k + 1));
            return Some((name, value));
        }
        k += 1;
    }
    None
}

/// The variables of an environment dump, one per line `name=value`, in order;
/// lines without `=` are skipped.
pub fn parse_env(seg: &[u8]) -> (r: Vec<EnvVar>)
    ensures
        var_views(r@) == env_entries(seg@),
{
    let lines = split_bytes(seg, NEWLINE);
    let mut r: Vec<EnvVar> = Vec::new();
    let mut i: usize = 0;
    assert(views(lines@).subrange(0, 0) =~= Seq::<Seq<u8>>::empty());
    assert(var_views(r@) =~= Seq::<(Seq<u8>, Seq<u8>)>::empty());
    while i < lines.len()
        invariant
            0 <= i <= lines@.len(),
            var_views(r@) == entries_of_lines(views(lines@).subrange(0, i as int)),
        decreases lines@.len() - i,
    {
        let ghost sub = views(lines@).subrange(0, i + 1);
        assert(sub.drop_last() =~= views(lines@).subrange(0, i as int));
        assert(sub.last() == lines@[i as int]@);
        match parse_line(lines[i].as_slice()) {
            Some(e) => {
                let ghost old_r = r@;
                let ghost ev = (e.0@, e.1@);
                r.push(e);
                assert(var_views(r@) =~= var_views(old_r).push(ev));
            },
            None => {},
        }
        i += 1;
    }
    assert(views(lines@).subrange(0, lines@.len() as int) =~= views(lines@));
    r
}

/// The value of `name` in a snapshot, the last line for it winning.
pub fn lookup_var<'a>(vars: &'a Vec<EnvVar>, name: &[u8]) -> (r: Option<&'a Vec<u8>>)
    ensures
        match r {
            Some(v) => lookup(var_views(vars@), name@) == Some(v@),
            None => lookup(var_views(vars@), name@) is None,
        },
{
    let mut i: usize = vars.len();
    assert(var_views(vars@).subrange(0, i as int) =~= var_views(vars@));
    while i > 0
        invariant
            0 <= i <= vars@.len(),
            lookup(var_views(vars@), name@) == lookup(var_views(vars@).subrange(0, i as int), name@),
        decreases i,
    {
        let ghost sub = var_views(vars@).subrange(0, i as int);
        assert(sub.drop_last() =~= var_views(vars@).subrange(0, i - 1));
        assert(sub.last() == (vars@[i - 1].0@, vars@[i - 1].1@));
        if bytes_eq(vars[i - 1].0.as_slice(), name) {
            return Some(&vars[i - 1].1);
        }
        i -= 1;
    }
    None
}

/// The updates to export: each variable of `after` that is absent from
/// `before`, or whose value differs other than in the case of ASCII letters,
/// with path lists freed of repeated entries.
pub fn diff_env(before: &Vec<EnvVar>, after: &Vec<EnvVar>) -> (r: Vec<EnvVar>)
    ensures
        var_views(r@) == env_diff(var_views(before@), var_views(after@)),
{
    let mut r: Vec<EnvVar> = Vec::new();
    let mut i: usize = 0;
    assert(var_views(after@).subrange(0, 0) =~= Seq::<(Seq<u8>, Seq<u8>)>::empty());
    assert(var_views(r@) =~= Seq::<(Seq<u8>, Seq<u8>)>::empty());
    while i < after.len()
        invariant
            0 <= i <= after@.len(),
            var_views(r@) == env_diff(var_views(before@), var_views(after@).subrange(0, i as int)),
        decreases after@.len() - i,
    {
        let ghost sub = var_views(after@).subrange(0, i + 1);
        assert(sub.drop_last() =~= var_views(after@).subrange(0, i as int));
        assert(sub.last() == (after@[i as int].0@, after@[i as int].1@));
        let name = after[i].0.as_slice();
        let value = after[i].1.as_slice();
        let differs = match lookup_var(before, name) {
            None => true,
            Some(o) => !bytes_eq_ignore_case(o.as_slice(), value),
        };
        if differs {
            let applied = if is_path_variable(name) {
                filter_path_value(value)
            } else {
                slice_to_vec(value)
            };
            let ghost old_r = r@;
            let ghost ev = (name@, applied@);
            r.push((slice_to_vec(name), applied));
            assert(var_views(r@) =~= var_views(old_r).push(ev));
        }
        i += 1;
    }
    assert(var_views(after@).subrange(0, after@.len() as int) =~= var_views(after@));
    r
}

/// What the captured output of one run asks to export: the stages must be
/// exactly three, the script must report no usage error, and then the updates
/// are the difference of the two environment dumps.
pub fn environment_updates(output: &[u8]) -> (r: Result<Vec<EnvVar>, SetupError>)
    ensures
        ({
            let stages = split_on(output@, STAGE_DELIMITER);
            let errors = error_lines(split_on(stages[1], NEWLINE));
            match r {
                Ok(u) => stages.len() == 3 && errors.len() == 0 && var_views(u@) == env_diff(
                    env_entries(stages[0]),
                    env_entries(stages[2]),
                ),
                Err(SetupError::MalformedOutput) => stages.len() != 3,
                Err(SetupError::InvalidParameters(ls)) => stages.len() == 3 && errors.len() > 0
                    && views(ls@) == errors,
                Err(_) => false,
            }
        }),
{
    let t = match split_transcript(output) {
        Ok(t) => t,
        Err(e) => {
            return Err(e);
        },
    };
    let errors = usage_errors(t.script.as_slice());
    if errors.len() > 0 {
        return Err(SetupError::InvalidParameters(errors));
    }
    let before = parse_env(t.before.as_slice());
    let after = parse_env(t.after.as_slice());
    Ok(diff_env(&before, &after))
}

/// A second run of a script that prepends the same entries `p` to a path list
/// whose current value is the normalized result of the first run exports no
/// new value for it: either no update at all, or the value it already holds.
pub proof fn law_second_run_no_growth(
    before: Seq<(Seq<u8>, Seq<u8>)>,
    n: Seq<u8>,
    p: Seq<u8>,
    b: Seq<u8>,
)
    requires
        is_path_name(n),
        lookup(before, n) == Some(normalized(p.push(LIST_DELIMITER) + b)),
    ensures
        ({
            let current = normalized(p.push(LIST_DELIMITER) + b);
            let d = env_diff(before, seq![(n, p.push(LIST_DELIMITER) + current)]);
            d.len() == 0 || d == seq![(n, current)]
        }),
{
    let current = normalized(p.push(LIST_DELIMITER) + b);
    let after = seq![(n, p.push(LIST_DELIMITER) + current)];
    assert(after.drop_last() =~= Seq::<(Seq<u8>, Seq<u8>)>::empty());
    law_prepend_again(p, b);
    let d = env_diff(before, after);
    assert(env_diff(before, after.drop_last()) =~= Seq::<(Seq<u8>, Seq<u8>)>::empty());
    assert(after.last() == (n, p.push(LIST_DELIMITER) + current));
    assert(applied_value(n, p.push(LIST_DELIMITER) + current) == current);
    if changed(before, n, p.push(LIST_DELIMITER) + current) {
        assert(d =~= seq![(n, current)]);
    }
}

} // verus!
