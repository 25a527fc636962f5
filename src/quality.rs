//! Resolution tiers of asset URLs and the normalization that rewrites a URL to a tier.
use vstd::prelude::*;
use crate::text::{chars_of, contains, contains_exec, same_chars, string_of};

verus! {

/// A resolution bucket recognized by the asset host's URL scheme.
#[derive(Clone, Copy, Debug, PartialEq, Eq, Structural)]
pub enum QualityTier {
    Original,
    Large,
    Medium,
    Small,
}

/// The path segment that names a tier.
pub open spec fn tier_segment(t: QualityTier) -> Seq<char> {
    match t {
        QualityTier::Original => seq!['o', 'r', 'i', 'g', 'i', 'n', 'a', 'l', 's'],
        QualityTier::Large => seq!['7', '3', '6', 'x'],
        QualityTier::Medium => seq!['4', '7', '4', 'x'],
        QualityTier::Small => seq!['2', '3', '6', 'x'],
    }
}

/// A path segment that names some tier.
pub open spec fn is_tier_segment(s: Seq<char>) -> bool {
    exists|t: QualityTier| tier_segment(t) == s
}

/// The host fragment that marks an asset URL.
pub open spec fn asset_host() -> Seq<char> {
    seq!['p', 'i', 'n', 'i', 'm', 'g', '.', 'c', 'o', 'm']
}

/// The tier used when a name is not recognized.
pub open spec fn default_tier() -> QualityTier {
    QualityTier::Large
}

/// The tier a user-supplied name selects.
pub open spec fn tier_named(name: Seq<char>) -> QualityTier {
    if name == seq!['o', 'r', 'i', 'g', 'i', 'n', 'a', 'l'] || name == tier_segment(
        QualityTier::Original,
    ) {
        QualityTier::Original
    } else if name == tier_segment(QualityTier::Large) {
        QualityTier::Large
    } else if name == tier_segment(QualityTier::Medium) {
        QualityTier::Medium
    } else if name == tier_segment(QualityTier::Small) {
        QualityTier::Small
    } else {
        default_tier()
    }
}

/// `s` cut at every `d`: the pieces between separators, in order, empty ones included.
pub open spec fn split_on(s: Seq<char>, d: char) -> Seq<Seq<char>>
    decreases s.len(),
{
    if s.len() == 0 {
        seq![Seq::empty()]
    } else {
        let r = split_on(s.drop_last(), d);
        if s.last() == d {
            r.push(Seq::empty())
        } else {
            r.update(r.len() - 1, r.last().push(s.last()))
        }
    }
}

/// The pieces `ps` put back together with `d` between neighbours.
pub open spec fn join_on(ps: Seq<Seq<char>>, d: char) -> Seq<char>
    decreases ps.len(),
{
    if ps.len() == 0 {
        Seq::empty()
    } else if ps.len() == 1 {
        ps[0]
    } else {
        join_on(ps.drop_last(), d).push(d) + ps.last()
    }
}

/// An inner piece (neither the first nor the last) is a tier segment.
pub open spec fn has_inner_tier(ps: Seq<Seq<char>>) -> bool {
    exists|k: int| 0 < k < ps.len() - 1 && is_tier_segment(#[trigger] ps[k])
}

/// Every inner piece that names a tier replaced by the segment of `t`.
pub open spec fn retier(ps: Seq<Seq<char>>, t: QualityTier) -> Seq<Seq<char>> {
    Seq::new(
        ps.len(),
        |k: int|
            if 0 < k < ps.len() - 1 && is_tier_segment(ps[k]) {
                tier_segment(t)
            } else {
                ps[k]
            },
    )
}

/// `url` rewritten to tier `t`: each inner `/`-separated piece that names a tier becomes
/// `t`'s segment; with no such piece, an asset URL of at least four pieces gets `t`'s
/// segment inserted as piece 3; anything else is returned unchanged.
pub open spec fn normalized(url: Seq<char>, t: QualityTier) -> Seq<char> {
    let ps = split_on(url, '/');
    if has_inner_tier(ps) {
        join_on(retier(ps, t), '/')
    } else if contains(url, asset_host()) && ps.len() >= 4 {
        join_on(ps.insert(3, tier_segment(t)), '/')
    } else {
        url
    }
}

pub proof fn lemma_split_nonempty(s: Seq<char>, d: char)
    ensures
        split_on(s, d).len() >= 1,
    decreases s.len(),
{
    if s.len() > 0 {
        lemma_split_nonempty(s.drop_last(), d);
    }
}

/// No piece of a split holds the separator.
proof fn lemma_split_pieces(s: Seq<char>, d: char)
    ensures
        forall|k: int| 0 <= k < split_on(s, d).len() ==> !(#[trigger] split_on(s, d)[k]).contains(d),
    decreases s.len(),
{
    if s.len() > 0 {
        lemma_split_pieces(s.drop_last(), d);
        lemma_split_nonempty(s.drop_last(), d);
        let r = split_on(s.drop_last(), d);
        if s.last() != d {
            assert forall|k: int| 0 <= k < split_on(s, d).len() implies !(#[trigger] split_on(
                s,
                d,
            )[k]).contains(d) by {
                if k == r.len() - 1 {
                    let p = r.last().push(s.last());
                    if p.contains(d) {
                        let j = choose|j: int| 0 <= j < p.len() && p[j] == d;
                        assert(r.last()[j] == d);
                    }
                }
            }
        }
    }
}

/// Appending separator-free text to a split grows its last piece.
proof fn lemma_split_append(a: Seq<char>, b: Seq<char>, d: char)
    requires
        !b.contains(d),
    ensures
        split_on(a + b, d) == split_on(a, d).update(
            split_on(a, d).len() - 1,
            split_on(a, d).last() + b,
        ),
    decreases b.len(),
{
    lemma_split_nonempty(a, d);
    if b.len() == 0 {
        assert(a + b =~= a);
        assert(split_on(a, d).last() + b =~= split_on(a, d).last());
        assert(split_on(a, d).update(split_on(a, d).len() - 1, split_on(a, d).last())
            =~= split_on(a, d));
    } else {
        let b0 = b.drop_last();
        assert(!b0.contains(d)) by {
            if b0.contains(d) {
                let j = choose|j: int| 0 <= j < b0.len() && b0[j] == d;
                assert(b[j] == d);
            }
        }
        lemma_split_append(a, b0, d);
        assert((a + b).drop_last() =~= a + b0);
        assert((a + b).last() == b.last());
        assert(b.last() != d) by {
            assert(b[b.len() - 1] == d ==> b.contains(d));
        }
        assert(split_on(a, d).last() + b0 + seq![b.last()] =~= split_on(a, d).last() + b);
        assert((split_on(a, d).last() + b0).push(b.last()) =~= split_on(a, d).last() + b);
        assert(split_on(a + b, d) =~= split_on(a, d).update(
            split_on(a, d).len() - 1,
            split_on(a, d).last() + b,
        ));
    }
}

/// Splitting a join gives back the pieces, when none holds the separator.
proof fn lemma_split_join(ps: Seq<Seq<char>>, d: char)
    requires
        ps.len() >= 1,
        forall|k: int| 0 <= k < ps.len() ==> !(#[trigger] ps[k]).contains(d),
    ensures
        split_on(join_on(ps, d), d) == ps,
    decreases ps.len(),
{
    if ps.len() == 1 {
        lemma_split_append(Seq::empty(), ps[0], d);
        assert(Seq::<char>::empty() + ps[0] =~= ps[0]);
        assert(split_on(Seq::<char>::empty(), d).update(0, Seq::<char>::empty() + ps[0]) =~= ps);
    } else {
        let init = ps.drop_last();
        lemma_split_join(init, d);
        let a = join_on(init, d).push(d);
        lemma_split_append(a, ps.last(), d);
        assert(a.drop_last() =~= join_on(init, d));
        assert(split_on(a, d) == init.push(Seq::empty()));
        assert(Seq::<char>::empty() + ps.last() =~= ps.last());
        assert(init.push(Seq::empty()).update(init.len() as int, ps.last()) =~= ps);
    }
}

/// Normalizing an already normalized URL changes nothing.
pub proof fn lemma_normalize_idempotent(url: Seq<char>, t: QualityTier)
    ensures
        normalized(normalized(url, t), t) == normalized(url, t),
{
    let ps = split_on(url, '/');
    lemma_split_nonempty(url, '/');
    lemma_split_pieces(url, '/');
    assert(!tier_segment(t).contains('/'));
    assert(is_tier_segment(tier_segment(t)));
    if has_inner_tier(ps) {
        let qs = retier(ps, t);
        assert forall|k: int| 0 <= k < qs.len() implies !(#[trigger] qs[k]).contains('/') by {}
        lemma_split_join(qs, '/');
        let k0 = choose|k: int| 0 < k < ps.len() - 1 && is_tier_segment(#[trigger] ps[k]);
        assert(qs[k0] == tier_segment(t));
        assert(has_inner_tier(qs));
        assert(retier(qs, t) =~= qs);
    } else if contains(url, asset_host()) && ps.len() >= 4 {
        let qs = ps.insert(3, tier_segment(t));
        assert forall|k: int| 0 <= k < qs.len() implies !(#[trigger] qs[k]).contains('/') by {
            if k > 3 {
                assert(qs[k] == ps[k - 1]);
            } else if k < 3 {
                assert(qs[k] == ps[k]);
            }
        }
        lemma_split_join(qs, '/');
        assert(qs[3] == tier_segment(t));
        assert(has_inner_tier(qs));
        assert forall|k: int| 0 < k < qs.len() - 1 && is_tier_segment(#[trigger] qs[k]) implies k
            == 3 by {
            if k > 3 {
                assert(qs[k] == ps[k - 1]);
            } else if k < 3 {
                assert(qs[k] == ps[k]);
            }
        }
        assert(retier(qs, t) =~= qs);
    }
}


/// The character sequences held by a vector of character vectors.
pub open spec fn pieces(v: Seq<Vec<char>>) -> Seq<Seq<char>> {
    Seq::new(v.len(), |i: int| v[i]@)
}

/// Appends the characters of `src` to `dst`.
pub fn push_all(dst: &mut Vec<char>, src: &[char])
    ensures
        final(dst)@ == old(dst)@ + src@,
{
    let mut i: usize = 0;
    while i < src.len()
        invariant
            i <= src@.len(),
            dst@ == old(dst)@ + src@.take(i as int),
        decreases src@.len() - i,
    {
        dst.push(src[i]);
        i = i + 1;
        assert(src@.take(i as int) =~= src@.take(i - 1).push(src@[i - 1]));
    }
    assert(src@.take(i as int) =~= src@);
}

/// `s` cut at every `d`.
pub fn split_chars(s: &[char], d: char) -> (r: Vec<Vec<char>>)
    ensures
        pieces(r@) == split_on(s@, d),
{
    let mut parts: Vec<Vec<char>> = Vec::new();
    let mut cur: Vec<char> = Vec::new();
    let mut i: usize = 0;
    assert(pieces(parts@).push(cur@) =~= split_on(s@.take(0), d));
    while i < s.len()
        invariant
            i <= s@.len(),
            pieces(parts@).push(cur@) == split_on(s@.take(i as int), d),
        decreases s@.len() - i,
    {
        let c = s[i];
        assert(s@.take(i + 1).drop_last() =~= s@.take(i as int));
        assert(s@.take(i + 1).last() == c);
        if c == d {
            let ghost before = pieces(parts@);
            parts.push(cur);
            cur = Vec::new();
            assert(pieces(parts@) =~= before.push(parts@.last()@));
        } else {
            let ghost before = pieces(parts@).push(cur@);
            cur.push(c);
            assert(pieces(parts@).push(cur@) =~= before.update(before.len() - 1, before.last().push(c)));
        }
        i = i + 1;
    }
    assert(s@.take(s@.len() as int) =~= s@);
    parts.push(cur);
    assert(pieces(parts@) =~= pieces(parts@.drop_last()).push(parts@.last()@));
    parts
}

/// The pieces `ps` put back together with `d` between neighbours.
pub fn join_chars(ps: &Vec<Vec<char>>, d: char) -> (r: Vec<char>)
    ensures
        r@ == join_on(pieces(ps@), d),
{
    let mut r: Vec<char> = Vec::new();
    if ps.len() == 0 {
        return r;
    }
    push_all(&mut r, ps[0].as_slice());
    assert(pieces(ps@).take(1).len() == 1);
    assert(r@ =~= join_on(pieces(ps@).take(1), d));
    let mut k: usize = 1;
    while k < ps.len()
        invariant
            1 <= k <= ps@.len(),
            r@ == join_on(pieces(ps@).take(k as int), d),
        decreases ps@.len() - k,
    {
        r.push(d);
        push_all(&mut r, ps[k].as_slice());
        assert(pieces(ps@).take(k + 1).drop_last() =~= pieces(ps@).take(k as int));
        k = k + 1;
    }
    assert(pieces(ps@).take(k as int) =~= pieces(ps@));
    r
}

impl QualityTier {
    /// The tier a user-supplied name selects; unrecognized names give the default tier.
    pub fn from_name(name: &str) -> (r: QualityTier)
        ensures
            r == tier_named(name@),
    {
        let n = chars_of(name);
        if same_chars(n.as_slice(), vec!['o', 'r', 'i', 'g', 'i', 'n', 'a', 'l'].as_slice())
            || same_chars(n.as_slice(), QualityTier::Original.segment().as_slice()) {
            QualityTier::Original
        } else if same_chars(n.as_slice(), QualityTier::Large.segment().as_slice()) {
            QualityTier::Large
        } else if same_chars(n.as_slice(), QualityTier::Medium.segment().as_slice()) {
            QualityTier::Medium
        } else if same_chars(n.as_slice(), QualityTier::Small.segment().as_slice()) {
            QualityTier::Small
        } else {
            QualityTier::Large
        }
    }

    /// The path segment that names this tier.
    pub fn segment(self) -> (r: Vec<char>)
        ensures
            r@ == tier_segment(self),
    {
        match self {
            QualityTier::Original => vec!['o', 'r', 'i', 'g', 'i', 'n', 'a', 'l', 's'],
            QualityTier::Large => vec!['7', '3', '6', 'x'],
            QualityTier::Medium => vec!['4', '7', '4', 'x'],
            QualityTier::Small => vec!['2', '3', '6', 'x'],
        }
    }
}

/// Whether `s` names some tier.
pub fn is_tier_segment_exec(s: &[char]) -> (r: bool)
    ensures
        r == is_tier_segment(s@),
{
    let r = same_chars(s, QualityTier::Original.segment().as_slice())
        || same_chars(s, QualityTier::Large.segment().as_slice())
        || same_chars(s, QualityTier::Medium.segment().as_slice())
        || same_chars(s, QualityTier::Small.segment().as_slice());
    proof {
        if is_tier_segment(s@) {
            let t = choose|t: QualityTier| tier_segment(t) == s@;
            match t {
                QualityTier::Original => {},
                QualityTier::Large => {},
                QualityTier::Medium => {},
                QualityTier::Small => {},
            }
        }
        if r {
            if s@ == tier_segment(QualityTier::Original) {
            } else if s@ == tier_segment(QualityTier::Large) {
            } else if s@ == tier_segment(QualityTier::Medium) {
                assert(tier_segment(QualityTier::Medium) == s@);
            } else {
                assert(tier_segment(QualityTier::Small) == s@);
            }
        }
    }
    r
}

/// `url` rewritten to tier `tier` (see `normalized`). Never fails: text that is not an
/// asset URL comes back unchanged unless it holds an inner tier segment.
pub fn normalize(url: &str, tier: QualityTier) -> (r: String)
    ensures
        r@ == normalized(url@, tier),
{
    let u = chars_of(url);
    let normalized_chars = normalize_chars(u.as_slice(), tier);
    string_of(normalized_chars.as_slice())
}

/// `url` rewritten to tier `tier`, on characters.
pub fn normalize_chars(u: &[char], tier: QualityTier) -> (r: Vec<char>)
    ensures
        r@ == normalized(u@, tier),
{
    let ps = split_chars(u, '/');
    let n = ps.len();
    let mut found = false;
    let mut k: usize = 1;
    while n >= 1 && k < n - 1
        invariant
            n == ps@.len(),
            1 <= k,
            found == exists|j: int| 1 <= j < k && j < n - 1 && is_tier_segment(#[trigger] pieces(ps@)[j]),
        decreases n - k,
    {
        let is_tier = is_tier_segment_exec(ps[k].as_slice());
        assert(pieces(ps@)[k as int] == ps@[k as int]@);
        if is_tier {
            found = true;
        }
        k = k + 1;
    }
    let ghost sp = split_on(u@, '/');
    assert(found == has_inner_tier(sp)) by {
        if has_inner_tier(sp) {
            let j = choose|j: int| 0 < j < sp.len() - 1 && is_tier_segment(#[trigger] sp[j]);
            assert(pieces(ps@)[j] == sp[j]);
        }
    }
    if found {
        let mut qs: Vec<Vec<char>> = Vec::new();
        let mut j: usize = 0;
        while j < n
            invariant
                n == ps@.len(),
                j <= n,
                sp == pieces(ps@),
                pieces(qs@) == retier(sp, tier).take(j as int),
            decreases n - j,
        {
            let ghost before = pieces(qs@);
            if j > 0 && j + 1 < n && is_tier_segment_exec(ps[j].as_slice()) {
                qs.push(tier.segment());
            } else {
                let mut piece: Vec<char> = Vec::new();
                push_all(&mut piece, ps[j].as_slice());
                qs.push(piece);
            }
            assert(pieces(qs@) =~= before.push(qs@.last()@));
            assert(retier(sp, tier).take(j + 1) =~= retier(sp, tier).take(j as int).push(
                retier(sp, tier)[j as int],
            ));
            j = j + 1;
        }
        assert(retier(sp, tier).take(n as int) =~= retier(sp, tier));
        join_chars(&qs, '/')
    } else if n >= 4 && contains_exec(u, vec!['p', 'i', 'n', 'i', 'm', 'g', '.', 'c', 'o', 'm'].as_slice()) {
        let mut qs: Vec<Vec<char>> = Vec::new();
        let mut j: usize = 0;
        while j < n
            invariant
                n == ps@.len(),
                n >= 4,
                j <= n,
                sp == pieces(ps@),
                pieces(qs@) == sp.insert(3, tier_segment(tier)).take(
                    if j <= 3 { j as int } else { j + 1 },
                ),
            decreases n - j,
        {
            let ghost ins = sp.insert(3, tier_segment(tier));
            if j == 3 {
                let ghost before = pieces(qs@);
                qs.push(tier.segment());
                assert(pieces(qs@) =~= before.push(tier_segment(tier)));
                assert(ins.take(4) =~= ins.take(3).push(ins[3]));
            }
            let ghost before = pieces(qs@);
            let mut piece: Vec<char> = Vec::new();
            push_all(&mut piece, ps[j].as_slice());
            qs.push(piece);
            assert(pieces(qs@) =~= before.push(qs@.last()@));
            let ghost m: int = if j < 3 { j as int } else { j + 1 };
            assert(ins[m] == sp[j as int]);
            assert(ins.take(m + 1) =~= ins.take(m).push(ins[m]));
            j = j + 1;
        }
        assert(sp.insert(3, tier_segment(tier)).take(n + 1) =~= sp.insert(3, tier_segment(tier)));
        join_chars(&qs, '/')
    } else {
        let mut r: Vec<char> = Vec::new();
        push_all(&mut r, u);
        assert(r@ =~= u@);
        r
    }
}

} // verus!
