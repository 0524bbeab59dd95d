use vstd::prelude::*;
use vstd::slice::slice_to_vec;

use crate::text::{
    bytes_eq, bytes_eq_ignore_case, eq_ignore_case, join_bytes, join_with, lemma_split_concat,
    lemma_split_join, lemma_split_nonempty, lemma_split_pieces, split_bytes, split_on, views,
};

verus! {

/// The byte between two entries of a path list (`;`).
pub const LIST_DELIMITER: u8 = 0x3b;

/// The entries of `s` in the order of their first occurrence, each once.
pub open spec fn dedup(s: Seq<Seq<u8>>) -> Seq<Seq<u8>>
    decreases s.len(),
{
    if s.len() == 0 {
        Seq::empty()
    } else {
        let d = dedup(s.drop_last());
        if d.contains(s.last()) {
            d
        } else {
            d.push(s.last())
        }
    }
}

/// A path-list value with its repeated entries removed.
pub open spec fn normalized(v: Seq<u8>) -> Seq<u8> {
    join_with(dedup(split_on(v, LIST_DELIMITER)), LIST_DELIMITER)
}

/// In `s`, an occurrence of `x` comes before every occurrence of `y`.
pub open spec fn first_before(s: Seq<Seq<u8>>, x: Seq<u8>, y: Seq<u8>) -> bool {
    exists|k: int|
        0 <= k < s.len() && s[k] == x && forall|m: int| 0 <= m <= k ==> #[trigger] s[m] != y
}

pub open spec fn path_name(k: int) -> Seq<u8> {
    if k == 0 {
        seq![0x50u8, 0x41, 0x54, 0x48]
    } else if k == 1 {
        seq![0x49u8, 0x4e, 0x43, 0x4c, 0x55, 0x44, 0x45]
    } else if k == 2 {
        seq![0x4cu8, 0x49, 0x42]
    } else {
        seq![0x4cu8, 0x49, 0x42, 0x50, 0x41, 0x54, 0x48]
    }
}

/// The names of the variables whose values are path lists: `PATH`, `INCLUDE`,
/// `LIB` and `LIBPATH`, in any case of their letters.
pub open spec fn is_path_name(n: Seq<u8>) -> bool {
    exists|k: int| 0 <= k < 4 && eq_ignore_case(n, #[trigger] path_name(k))
}

/// Whether the variable `name` holds a path list.
pub fn is_path_variable(name: &[u8]) -> (r: bool)
    ensures
        r == is_path_name(name@),
{
    let names: Vec<Vec<u8>> = vec![
        vec![0x50u8, 0x41, 0x54, 0x48],
        vec![0x49u8, 0x4e, 0x43, 0x4c, 0x55, 0x44, 0x45],
        vec![0x4cu8, 0x49, 0x42],
        vec![0x4cu8, 0x49, 0x42, 0x50, 0x41, 0x54, 0x48],
    ];
    let mut k: usize = 0;
    while k < names.len()
        invariant
            names@.len() == 4,
            forall|t: int| 0 <= t < 4 ==> (#[trigger] names@[t])@ == path_name(t),
            0 <= k <= 4,
            forall|t: int| 0 <= t < k ==> !eq_ignore_case(name@, #[trigger] path_name(t)),
        decreases 4 - k,
    {
        if bytes_eq_ignore_case(name, names[k].as_slice()) {
            return true;
        }
        k += 1;
    }
    false
}

/// Whether `x` is one of the entries of `list`.
fn holds_entry(list: &Vec<Vec<u8>>, x: &[u8]) -> (r: bool)
    ensures
        r == views(list@).contains(x@),
{
    let mut j: usize = 0;
    while j < list.len()
        invariant
            0 <= j <= list@.len(),
            forall|t: int| 0 <= t < j ==> views(list@)[t] != x@,
        decreases list@.len() - j,
    {
        if bytes_eq(list[j].as_slice(), x) {
            assert(views(list@)[j as int] == x@);
            return true;
        }
        j += 1;
    }
    false
}

/// Removes the repeated entries of a path list, keeping the first occurrence of
/// each and the order of the entries, so that earlier entries still shadow
/// later ones.
pub fn filter_path_value(path: &[u8]) -> (r: Vec<u8>)
    ensures
        r@ == normalized(path@),
{
    let pieces = split_bytes(path, LIST_DELIMITER);
    let mut kept: Vec<Vec<u8>> = Vec::new();
    let mut i: usize = 0;
    assert(views(pieces@).subrange(0, 0) =~= Seq::<Seq<u8>>::empty());
    assert(views(kept@) =~= Seq::<Seq<u8>>::empty());
    while i < pieces.len()
        invariant
            0 <= i <= pieces@.len(),
            views(kept@) == dedup(views(pieces@).subrange(0, i as int)),
        decreases pieces@.len() - i,
    {
        let ghost sub = views(pieces@).subrange(0, i + 1);
        assert(sub.drop_last() =~= views(pieces@).subrange(0, i as int));
        assert(sub.last() == pieces@[i as int]@);
        let piece = pieces[i].as_slice();
        if !holds_entry(&kept, piece) {
            let ghost old_kept = kept@;
            kept.push(slice_to_vec(piece));
            assert(views(kept@) =~= views(old_kept).push(piece@));
        }
        i += 1;
    }
    assert(views(pieces@).subrange(0, pieces@.len() as int) =~= views(pieces@));
    join_bytes(&kept, LIST_DELIMITER)
}

/// An entry is kept exactly when it occurs.
pub proof fn lemma_dedup_contains(s: Seq<Seq<u8>>, x: Seq<u8>)
    ensures
        dedup(s).contains(x) == s.contains(x),
    decreases s.len(),
{
    if s.len() > 0 {
        let t = s.drop_last();
        lemma_dedup_contains(t, x);
        lemma_dedup_contains(t, s.last());
        assert(s =~= t.push(s.last()));
        if s.contains(x) {
            let k = choose|k: int| 0 <= k < s.len() && s[k] == x;
            if k < t.len() {
                assert(t[k] == x);
            }
        }
        if t.contains(x) {
            let k = choose|k: int| 0 <= k < t.len() && t[k] == x;
            assert(s[k] == x);
        }
        let d = dedup(t);
        if !d.contains(s.last()) {
            if d.push(s.last()).contains(x) {
                let k = choose|k: int| 0 <= k < d.len() + 1 && d.push(s.last())[k] == x;
                if k < d.len() {
                    assert(d[k] == x);
                }
            }
            if d.contains(x) {
                let k = choose|k: int| 0 <= k < d.len() && d[k] == x;
                assert(d.push(s.last())[k] == x);
            }
            assert(d.push(s.last())[d.len() as int] == s.last());
        }
    }
}

/// No entry is kept twice.
pub proof fn lemma_dedup_distinct(s: Seq<Seq<u8>>)
    ensures
        dedup(s).no_duplicates(),
    decreases s.len(),
{
    if s.len() > 0 {
        lemma_dedup_distinct(s.drop_last());
        let d = dedup(s.drop_last());
        if !d.contains(s.last()) {
            let e = d.push(s.last());
            assert forall|i: int, j: int| 0 <= i < e.len() && 0 <= j < e.len() && i != j implies e[i]
                != e[j] by {
                if i == d.len() as int {
                    assert(e[j] == d[j]);
                } else if j == d.len() as int {
                    assert(e[i] == d[i]);
                } else {
                    assert(e[i] == d[i] && e[j] == d[j]);
                }
            }
        }
    }
}

/// The kept entries come in the order of their first occurrences.
pub proof fn lemma_dedup_order(s: Seq<Seq<u8>>)
    ensures
        forall|i: int, j: int|
            0 <= i < j < dedup(s).len() ==> first_before(s, #[trigger] dedup(s)[i], #[trigger] dedup(s)[j]),
    decreases s.len(),
{
    if s.len() > 0 {
        let t = s.drop_last();
        lemma_dedup_order(t);
        let d = dedup(t);
        let e = dedup(s);
        assert forall|i: int, j: int| 0 <= i < j < e.len() implies first_before(s, #[trigger] e[i], #[trigger] e[j]) by {
            if j < d.len() {
                assert(e[i] == d[i] && e[j] == d[j]);
                assert(first_before(t, d[i], d[j]));
                let k = choose|k: int|
                    0 <= k < t.len() && t[k] == d[i] && forall|m: int| 0 <= m <= k ==> #[trigger] t[m] != d[j];
                assert(s[k] == d[i]);
                assert forall|m: int| 0 <= m <= k implies #[trigger] s[m] != e[j] by {
                    assert(s[m] == t[m]);
                }
            } else {
                assert(!d.contains(s.last()));
                assert(e[j] == s.last());
                assert(e[i] == d[i]);
                assert(d.contains(d[i]));
                lemma_dedup_contains(t, d[i]);
                lemma_dedup_contains(t, s.last());
                let k = choose|k: int| 0 <= k < t.len() && t[k] == d[i];
                assert(s[k] == d[i]);
                assert forall|m: int| 0 <= m <= k implies #[trigger] s[m] != e[j] by {
                    assert(s[m] == t[m]);
                    if t[m] == s.last() {
                        assert(t.contains(s.last()));
                    }
                }
            }
        }
    }
}

/// Entries that already occurred change nothing.
pub proof fn lemma_dedup_repeat(x: Seq<Seq<u8>>, w: Seq<Seq<u8>>)
    requires
        forall|i: int| 0 <= i < w.len() ==> x.contains(#[trigger] w[i]),
    ensures
        dedup(x + w) == dedup(x),
    decreases w.len(),
{
    if w.len() == 0 {
        assert(x + w =~= x);
    } else {
        let w2 = w.drop_last();
        lemma_dedup_repeat(x, w2);
        assert((x + w).drop_last() =~= x + w2);
        assert(x.contains(w[w.len() - 1]));
        lemma_dedup_contains(x, w.last());
    }
}

/// Deduplicated prefixes that agree keep agreeing after the same suffix.
pub proof fn lemma_dedup_suffix(a: Seq<Seq<u8>>, b: Seq<Seq<u8>>, z: Seq<Seq<u8>>)
    requires
        dedup(a) == dedup(b),
    ensures
        dedup(a + z) == dedup(b + z),
    decreases z.len(),
{
    if z.len() == 0 {
        assert(a + z =~= a);
        assert(b + z =~= b);
    } else {
        let z2 = z.drop_last();
        lemma_dedup_suffix(a, b, z2);
        assert((a + z).drop_last() =~= a + z2);
        assert((b + z).drop_last() =~= b + z2);
    }
}

/// Deduplicating a suffix first changes nothing.
pub proof fn lemma_dedup_absorb(x: Seq<Seq<u8>>, y: Seq<Seq<u8>>)
    ensures
        dedup(x + dedup(y)) == dedup(x + y),
    decreases y.len(),
{
    if y.len() == 0 {
        assert(dedup(y) =~= y);
    } else {
        let y2 = y.drop_last();
        let c = y.last();
        lemma_dedup_absorb(x, y2);
        assert((x + y).drop_last() =~= x + y2);
        let dy = dedup(y2);
        lemma_dedup_contains(x + y2, c);
        lemma_dedup_contains(x + dy, c);
        lemma_dedup_contains(y2, c);
        if dy.contains(c) {
            let k = choose|k: int| 0 <= k < dy.len() && dy[k] == c;
            assert((x + dy)[x.len() + k] == c);
        } else {
            assert((x + dy.push(c)).drop_last() =~= x + dy);
            assert((x + dy.push(c)).last() == c);
            if (x + dy).contains(c) {
                let k = choose|k: int| 0 <= k < (x + dy).len() && (x + dy)[k] == c;
                if k >= x.len() {
                    assert(dy[k - x.len()] == c);
                }
                assert(x.contains(c));
                assert((x + y2)[k] == c);
            }
            if (x + y2).contains(c) {
                let k = choose|k: int| 0 <= k < (x + y2).len() && (x + y2)[k] == c;
                if k >= x.len() {
                    assert(y2[k - x.len()] == c);
                }
                assert(x.contains(c));
                assert((x + dy)[k] == c);
            }
        }
    }
}

/// What a split of a deduplicated value gives back.
proof fn lemma_split_normalized(v: Seq<u8>)
    ensures
        split_on(normalized(v), LIST_DELIMITER) == dedup(split_on(v, LIST_DELIMITER)),
{
    let e = split_on(v, LIST_DELIMITER);
    let d = dedup(e);
    lemma_split_nonempty(v, LIST_DELIMITER);
    lemma_split_pieces(v, LIST_DELIMITER);
    lemma_dedup_contains(e, e[0]);
    assert(e.contains(e[0]));
    assert forall|i: int| 0 <= i < d.len() implies !(#[trigger] d[i]).contains(LIST_DELIMITER) by {
        lemma_dedup_contains(e, d[i]);
        assert(d.contains(d[i]));
        let k = choose|k: int| 0 <= k < e.len() && e[k] == d[i];
        assert(!e[k].contains(LIST_DELIMITER));
    }
    lemma_split_join(d, LIST_DELIMITER);
}

/// A normalized path list holds the same distinct entries as the value it came
/// from, each once, in the order in which they first occurred there.
pub proof fn law_normalize_entries(v: Seq<u8>)
    ensures
        split_on(normalized(v), LIST_DELIMITER) == dedup(split_on(v, LIST_DELIMITER)),
        split_on(normalized(v), LIST_DELIMITER).no_duplicates(),
        forall|x: Seq<u8>|
            split_on(normalized(v), LIST_DELIMITER).contains(x) == split_on(v, LIST_DELIMITER).contains(x),
        forall|i: int, j: int|
            0 <= i < j < split_on(normalized(v), LIST_DELIMITER).len() ==> first_before(
                split_on(v, LIST_DELIMITER),
                #[trigger] split_on(normalized(v), LIST_DELIMITER)[i],
                #[trigger] split_on(normalized(v), LIST_DELIMITER)[j],
            ),
{
    let e = split_on(v, LIST_DELIMITER);
    lemma_split_normalized(v);
    lemma_dedup_distinct(e);
    lemma_dedup_order(e);
    assert forall|x: Seq<u8>| split_on(normalized(v), LIST_DELIMITER).contains(x) == e.contains(x) by {
        lemma_dedup_contains(e, x);
    }
}

/// Normalizing twice is normalizing once.
pub proof fn law_normalize_idempotent(v: Seq<u8>)
    ensures
        normalized(normalized(v)) == normalized(v),
{
    let e = split_on(v, LIST_DELIMITER);
    lemma_split_normalized(v);
    lemma_dedup_absorb(Seq::empty(), e);
    assert(Seq::<Seq<u8>>::empty() + dedup(e) =~= dedup(e));
    assert(Seq::<Seq<u8>>::empty() + e =~= e);
}

/// A script that prepends the same entries `p` to a path list a second time,
/// after the first result was normalized, leaves the normalized value as it was:
/// repeated runs do not make the list grow.
pub proof fn law_prepend_again(p: Seq<u8>, b: Seq<u8>)
    ensures
        normalized(p.push(LIST_DELIMITER) + normalized(p.push(LIST_DELIMITER) + b)) == normalized(
            p.push(LIST_DELIMITER) + b,
        ),
{
    let v1 = p.push(LIST_DELIMITER) + b;
    let n1 = normalized(v1);
    let sp = split_on(p, LIST_DELIMITER);
    let sb = split_on(b, LIST_DELIMITER);
    lemma_split_concat(p, b, LIST_DELIMITER);
    lemma_split_concat(p, n1, LIST_DELIMITER);
    lemma_split_normalized(v1);
    // split(p;n1) == sp + dedup(sp + sb)
    lemma_dedup_absorb(sp, sp + sb);
    assert(sp + (sp + sb) =~= (sp + sp) + sb);
    assert forall|i: int| 0 <= i < sp.len() implies sp.contains(#[trigger] sp[i]) by {}
    lemma_dedup_repeat(sp, sp);
    lemma_dedup_suffix(sp + sp, sp, sb);
}

} // verus!
