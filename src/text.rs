use vstd::prelude::*;

verus! {

/// The views of a sequence of byte vectors.
pub open spec fn views(v: Seq<Vec<u8>>) -> Seq<Seq<u8>> {
    v.map_values(|p: Vec<u8>| p@)
}

/// The views of a sequence of strings.
pub open spec fn string_views(v: Seq<String>) -> Seq<Seq<char>> {
    v.map_values(|s: String| s@)
}

/// The view of an optional string.
pub open spec fn opt_view(o: Option<String>) -> Option<Seq<char>> {
    match o {
        Some(v) => Some(v@),
        None => None,
    }
}

/// The pieces of `s` between occurrences of `d`, as `str::split` yields them:
/// always at least one piece, an empty one for an empty `s`.
pub open spec fn split_on(s: Seq<u8>, d: u8) -> Seq<Seq<u8>>
    decreases s.len(),
{
    if s.len() == 0 {
        seq![Seq::empty()]
    } else {
        let p = split_on(s.drop_last(), d);
        if s.last() == d {
            p.push(Seq::empty())
        } else {
            p.update(p.len() - 1, p.last().push(s.last()))
        }
    }
}

/// The pieces of `ps` with one `d` between each two of them.
pub open spec fn join_with(ps: Seq<Seq<u8>>, d: u8) -> Seq<u8>
    decreases ps.len(),
{
    if ps.len() == 0 {
        Seq::empty()
    } else if ps.len() == 1 {
        ps[0]
    } else {
        join_with(ps.drop_last(), d).push(d) + ps.last()
    }
}

/// `pat` occurs in `s` at position `k`.
pub open spec fn occurs_at(s: Seq<u8>, pat: Seq<u8>, k: int) -> bool {
    0 <= k && k + pat.len() <= s.len() && s.subrange(k, k + pat.len()) == pat
}

/// `pat` occurs somewhere in `s`.
pub open spec fn contains_seq(s: Seq<u8>, pat: Seq<u8>) -> bool {
    exists|k: int| occurs_at(s, pat, k)
}

/// ASCII lower case of one byte, as `u8::to_ascii_lowercase` gives it.
pub open spec fn lower(b: u8) -> u8 {
    if 0x41 <= b && b <= 0x5a {
        (b + 0x20) as u8
    } else {
        b
    }
}

/// Equal but for the case of ASCII letters.
pub open spec fn eq_ignore_case(a: Seq<u8>, b: Seq<u8>) -> bool {
    a.len() == b.len() && forall|i: int| 0 <= i < a.len() ==> lower(#[trigger] a[i]) == lower(b[i])
}

/// A split has at least one piece.
pub proof fn lemma_split_nonempty(s: Seq<u8>, d: u8)
    ensures
        split_on(s, d).len() >= 1,
    decreases s.len(),
{
    if s.len() > 0 {
        lemma_split_nonempty(s.drop_last(), d);
    }
}

/// No piece of a split holds the delimiter.
pub proof fn lemma_split_pieces(s: Seq<u8>, d: u8)
    ensures
        forall|i: int| 0 <= i < split_on(s, d).len() ==> !(#[trigger] split_on(s, d)[i]).contains(d),
    decreases s.len(),
{
    if s.len() > 0 {
        let p = split_on(s.drop_last(), d);
        lemma_split_pieces(s.drop_last(), d);
        lemma_split_nonempty(s.drop_last(), d);
        if s.last() != d {
            let q = split_on(s, d);
            assert forall|i: int| 0 <= i < q.len() implies !(#[trigger] q[i]).contains(d) by {
                if i == p.len() - 1 {
                    let w = p.last().push(s.last());
                    if w.contains(d) {
                        let j = choose|j: int| 0 <= j < w.len() && w[j] == d;
                        if j < p.last().len() {
                            assert(p.last().contains(d));
                        }
                    }
                } else {
                    assert(q[i] == p[i]);
                }
            }
        } else {
            let q = split_on(s, d);
            assert forall|i: int| 0 <= i < q.len() implies !(#[trigger] q[i]).contains(d) by {
                if i < p.len() {
                    assert(q[i] == p[i]);
                }
            }
        }
    }
}

/// A piece without the delimiter splits into itself.
pub proof fn lemma_split_whole(b: Seq<u8>, d: u8)
    requires
        !b.contains(d),
    ensures
        split_on(b, d) == seq![b],
    decreases b.len(),
{
    if b.len() > 0 {
        let c = b.drop_last();
        assert(!c.contains(d)) by {
            if c.contains(d) {
                let j = choose|j: int| 0 <= j < c.len() && c[j] == d;
                assert(b[j] == d);
            }
        }
        lemma_split_whole(c, d);
        assert(b.last() != d) by {
            assert(b[b.len() - 1] == b.last());
        }
        assert(c.push(b.last()) =~= b);
        assert(split_on(b, d) =~= seq![b]);
    } else {
        assert(b =~= Seq::<u8>::empty());
    }
}

/// Splitting at one delimiter splits each side apart.
pub proof fn lemma_split_concat(a: Seq<u8>, b: Seq<u8>, d: u8)
    ensures
        split_on(a.push(d) + b, d) == split_on(a, d) + split_on(b, d),
    decreases b.len(),
{
    let ad = a.push(d);
    if b.len() == 0 {
        assert(ad + b =~= ad);
        assert(ad.drop_last() =~= a);
        assert(split_on(a, d) + split_on(b, d) =~= split_on(a, d).push(Seq::empty()));
    } else {
        let b2 = b.drop_last();
        lemma_split_concat(a, b2, d);
        lemma_split_nonempty(b2, d);
        lemma_split_nonempty(a, d);
        let s = ad + b;
        assert(s.drop_last() =~= ad + b2);
        assert(s.last() == b.last());
        let pa = split_on(a, d);
        let pb = split_on(b2, d);
        if b.last() == d {
            assert(split_on(s, d) =~= pa + split_on(b, d));
        } else {
            assert((pa + pb).last() == pb.last());
            assert(split_on(s, d) =~= pa + split_on(b, d));
        }
    }
}

/// Joining pieces free of the delimiter and splitting again gives the pieces back.
pub proof fn lemma_split_join(ps: Seq<Seq<u8>>, d: u8)
    requires
        ps.len() >= 1,
        forall|i: int| 0 <= i < ps.len() ==> !(#[trigger] ps[i]).contains(d),
    ensures
        split_on(join_with(ps, d), d) == ps,
    decreases ps.len(),
{
    if ps.len() == 1 {
        lemma_split_whole(ps[0], d);
        assert(seq![ps[0]] =~= ps);
    } else {
        let q = ps.drop_last();
        assert forall|i: int| 0 <= i < q.len() implies !(#[trigger] q[i]).contains(d) by {
            assert(q[i] == ps[i]);
        }
        lemma_split_join(q, d);
        lemma_split_concat(join_with(q, d), ps.last(), d);
        assert(!ps[ps.len() - 1].contains(d));
        lemma_split_whole(ps.last(), d);
        assert(q + seq![ps.last()] =~= ps);
    }
}

/// Two byte strings are equal.
pub fn bytes_eq(a: &[u8], b: &[u8]) -> (r: bool)
    ensures
        r == (a@ == b@),
{
    if a.len() != b.len() {
        return false;
    }
    let mut i: usize = 0;
    while i < a.len()
        invariant
            a@.len() == b@.len(),
            0 <= i <= a@.len(),
            forall|j: int| 0 <= j < i ==> a@[j] == b@[j],
        decreases a@.len() - i,
    {
        if a[i] != b[i] {
            return false;
        }
        i += 1;
    }
    assert(a@ =~= b@);
    true
}

/// Two byte strings are equal but for the case of ASCII letters
/// (what `eq_ignore_ascii_case` decides).
pub fn bytes_eq_ignore_case(a: &[u8], b: &[u8]) -> (r: bool)
    ensures
        r == eq_ignore_case(a@, b@),
{
    if a.len() != b.len() {
        return false;
    }
    let mut i: usize = 0;
    while i < a.len()
        invariant
            a@.len() == b@.len(),
            0 <= i <= a@.len(),
            forall|j: int| 0 <= j < i ==> lower(a@[j]) == lower(b@[j]),
        decreases a@.len() - i,
    {
        let x: u8 = if 0x41 <= a[i] && a[i] <= 0x5a { a[i] + 0x20 } else { a[i] };
        let y: u8 = if 0x41 <= b[i] && b[i] <= 0x5a { b[i] + 0x20 } else { b[i] };
        if x != y {
            assert(lower(a@[i as int]) != lower(b@[i as int]));
            return false;
        }
        i += 1;
    }
    true
}

/// Whether `pat` occurs in `s` at position `k`.
fn bytes_match_at(s: &[u8], pat: &[u8], k: usize) -> (r: bool)
    requires
        k + pat@.len() <= s@.len(),
    ensures
        r == occurs_at(s@, pat@, k as int),
{
    let n: usize = s.len();
    let mut j: usize = 0;
    while j < pat.len()
        invariant
            n == s@.len(),
            k + pat@.len() <= s@.len(),
            0 <= j <= pat@.len(),
            forall|t: int| 0 <= t < j ==> s@[k + t] == pat@[t],
        decreases pat@.len() - j,
    {
        if s[k + j] != pat[j] {
            assert(s@.subrange(k as int, k + pat@.len())[j as int] != pat@[j as int]);
            return false;
        }
        j += 1;
    }
    assert(s@.subrange(k as int, k + pat@.len()) =~= pat@);
    true
}

/// Whether `pat` occurs in `s`.
pub fn bytes_contain(s: &[u8], pat: &[u8]) -> (r: bool)
    ensures
        r == contains_seq(s@, pat@),
{
    if pat.len() == 0 {
        assert(occurs_at(s@, pat@, 0)) by {
            assert(s@.subrange(0, 0) =~= pat@);
        }
        return true;
    }
    let mut k: usize = 0;
    while k <= s.len() && pat.len() <= s.len() - k
        invariant
            pat@.len() > 0,
            0 <= k <= s@.len(),
            forall|m: int| 0 <= m < k ==> !occurs_at(s@, pat@, m),
        decreases s@.len() - k,
    {
        if bytes_match_at(s, pat, k) {
            return true;
        }
        k += 1;
    }
    assert forall|m: int| !occurs_at(s@, pat@, m) by {
        if m >= k {
            assert(!(k + pat@.len() <= s@.len()));
        }
    }
    false
}

/// The pieces of `s` between occurrences of `d`.
pub fn split_bytes(s: &[u8], d: u8) -> (r: Vec<Vec<u8>>)
    ensures
        views(r@) == split_on(s@, d),
{
    let mut done: Vec<Vec<u8>> = Vec::new();
    let mut cur: Vec<u8> = Vec::new();
    let mut i: usize = 0;
    assert(s@.subrange(0, 0) =~= Seq::<u8>::empty());
    assert(views(done@).push(cur@) =~= seq![Seq::<u8>::empty()]);
    while i < s.len()
        invariant
            0 <= i <= s@.len(),
            views(done@).push(cur@) == split_on(s@.subrange(0, i as int), d),
        decreases s@.len() - i,
    {
        let ghost before = s@.subrange(0, i as int);
        let ghost after = s@.subrange(0, i + 1);
        assert(after.drop_last() =~= before);
        assert(after.last() == s@[i as int]);
        if s[i] == d {
            let old_done = Ghost(done@);
            done.push(cur);
            cur = Vec::new();
            assert(views(done@) =~= views(old_done@).push(views(done@).last()));
            assert(views(done@).push(cur@) =~= split_on(after, d));
        } else {
            let ghost old_cur = cur@;
            cur.push(s[i]);
            assert(views(done@).push(cur@) =~= split_on(after, d));
        }
        i += 1;
    }
    assert(s@.subrange(0, s@.len() as int) =~= s@);
    let ghost old_done = done@;
    done.push(cur);
    assert(views(done@) =~= views(old_done).push(cur@)) by {
        assert(views(done@).len() == views(old_done).len() + 1);
    }
    done
}

/// The pieces of `ps` with one `d` between each two of them.
pub fn join_bytes(ps: &Vec<Vec<u8>>, d: u8) -> (r: Vec<u8>)
    ensures
        r@ == join_with(views(ps@), d),
{
    let mut r: Vec<u8> = Vec::new();
    if ps.len() == 0 {
        return r;
    }
    let mut i: usize = 0;
    while i < ps.len()
        invariant
            0 <= i <= ps@.len(),
            ps@.len() > 0,
            i == 0 ==> r@.len() == 0,
            i > 0 ==> r@ == join_with(views(ps@).subrange(0, i as int), d),
        decreases ps@.len() - i,
    {
        let ghost prev = r@;
        if i > 0 {
            r.push(d);
        }
        let piece = &ps[i];
        let mut j: usize = 0;
        let ghost mid = r@;
        while j < piece.len()
            invariant
                0 <= j <= piece@.len(),
                r@ == mid + piece@.subrange(0, j as int),
            decreases piece@.len() - j,
        {
            r.push(piece[j]);
            assert(r@ =~= mid + piece@.subrange(0, j + 1));
            j += 1;
        }
        assert(piece@.subrange(0, piece@.len() as int) =~= piece@);
        let ghost vs = views(ps@).subrange(0, i + 1);
        assert(vs.drop_last() =~= views(ps@).subrange(0, i as int));
        if i == 0 {
            assert(mid =~= Seq::<u8>::empty());
            assert(r@ =~= join_with(vs, d));
        } else {
            assert(r@ =~= join_with(vs, d));
        }
        i += 1;
    }
    assert(views(ps@).subrange(0, ps@.len() as int) =~= views(ps@));
    r
}

} // verus!
