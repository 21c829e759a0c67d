//! The profiles, the ranked queue of variants to try, and the heads they were
//! made for.
use vstd::prelude::*;

use crate::head::{base_identity, head_identity, WlHead};
use crate::store::StoreHead;
use crate::matching::{
    assignable, pairable_pairs, pairings_valid, variant_deviation, variant_specificity, MatchReport,
    ProfileMatcher, ValidVariant,
};
use crate::profile::Profile;
use crate::search::SearchPattern;

verus! {

/// Limits the profiles considered to those whose name matches a pattern.
pub struct Restriction {
    pub pattern: SearchPattern,
}

impl Restriction {
    pub fn new(pattern: SearchPattern) -> (r: Restriction)
        ensures
            r.pattern == pattern,
    {
        Restriction { pattern }
    }
}

/// `a` ranks no lower than `b`: higher specificity first, then lower
/// deviation.
pub open spec fn rank_le(a: Seq<crate::matching::Pairing>, b: Seq<crate::matching::Pairing>) -> bool {
    variant_specificity(a) > variant_specificity(b) || (variant_specificity(a) == variant_specificity(b)
        && variant_deviation(a) <= variant_deviation(b))
}

/// The two variants rank alike.
pub open spec fn same_rank(a: Seq<crate::matching::Pairing>, b: Seq<crate::matching::Pairing>) -> bool {
    variant_specificity(a) == variant_specificity(b) && variant_deviation(a) == variant_deviation(b)
}

/// `r` holds the variants of `input` at the distinct positions `pos`, and
/// variants that rank alike keep their order.
pub open spec fn stably_placed(r: Seq<ValidVariant>, input: Seq<ValidVariant>, pos: Seq<int>) -> bool {
    &&& pos.len() == r.len()
    &&& forall|k: int| 0 <= k < r.len() ==> 0 <= #[trigger] pos[k] < input.len() && r[k] == input[pos[k]]
    &&& forall|a: int, b: int| 0 <= a < b < r.len() ==> pos[a] != pos[b]
    &&& forall|a: int, b: int|
        0 <= a < b < r.len() && same_rank(r[a].pairings@, r[b].pairings@) ==> pos[a] < pos[b]
}

/// Ranked from best to worst.
pub open spec fn ranked(vs: Seq<ValidVariant>) -> bool {
    forall|i: int, j: int| 0 <= i < j < vs.len() ==> rank_le(vs[i].pairings@, vs[j].pairings@)
}


/// The identities of a list of heads, in order.
pub open spec fn identities(hs: Seq<WlHead>) -> Seq<(usize, Seq<char>, Seq<char>, Seq<char>, Seq<char>, Seq<char>)> {
    hs.map_values(|h: WlHead| head_identity(h))
}

/// The two lists hold the same head identities, each as often.
pub open spec fn same_identities(a: Seq<WlHead>, b: Seq<WlHead>) -> bool {
    identities(a).to_multiset() == identities(b).to_multiset()
}

fn same_head(a: &WlHead, b: &WlHead) -> (r: bool)
    ensures
        r == (head_identity(*a) == head_identity(*b)),
{
    a.id == b.id && a.base.serial_number == b.base.serial_number && a.base.model == b.base.model
        && a.base.make == b.base.make && a.base.description == b.base.description && a.base.name
        == b.base.name
}

fn count_identity(hs: &Vec<WlHead>, h: &WlHead) -> (r: usize)
    ensures
        r as nat == identities(hs@).to_multiset().count(head_identity(*h)),
{
    broadcast use vstd::seq_lib::group_to_multiset_ensures;

    let ghost x = head_identity(*h);
    let mut r: usize = 0;
    let mut i: usize = 0;
    proof {
        assert(identities(hs@.subrange(0, 0)) =~= Seq::empty());
    }
    while i < hs.len()
        invariant
            i <= hs@.len(),
            x == head_identity(*h),
            r <= i,
            r as nat == identities(hs@.subrange(0, i as int)).to_multiset().count(x),
        decreases hs@.len() - i,
    {
        proof {
            assert(identities(hs@.subrange(0, i + 1)) =~= identities(hs@.subrange(0, i as int)).push(
                head_identity(hs@[i as int]),
            ));
            vstd::seq_lib::to_multiset_build(identities(hs@.subrange(0, i as int)), head_identity(hs@[i as int]));
        }
        if same_head(&hs[i], h) {
            r += 1;
        }
        i += 1;
    }
    proof {
        assert(hs@.subrange(0, i as int) =~= hs@);
    }
    r
}

fn counts_agree(a: &Vec<WlHead>, b: &Vec<WlHead>) -> (r: bool)
    ensures
        r == forall|i: int| 0 <= i < a@.len() ==> identities(a@).to_multiset().count(head_identity(#[trigger] a@[i]))
            == identities(b@).to_multiset().count(head_identity(a@[i])),
{
    let mut i: usize = 0;
    while i < a.len()
        invariant
            i <= a@.len(),
            forall|k: int| 0 <= k < i ==> identities(a@).to_multiset().count(head_identity(#[trigger] a@[k]))
                == identities(b@).to_multiset().count(head_identity(a@[k])),
        decreases a@.len() - i,
    {
        if count_identity(a, &a[i]) != count_identity(b, &a[i]) {
            return false;
        }
        i += 1;
    }
    true
}

proof fn lemma_counts_agree(a: Seq<WlHead>, b: Seq<WlHead>)
    requires
        forall|i: int| 0 <= i < a.len() ==> identities(a).to_multiset().count(head_identity(#[trigger] a[i]))
            == identities(b).to_multiset().count(head_identity(a[i])),
        forall|i: int| 0 <= i < b.len() ==> identities(b).to_multiset().count(head_identity(#[trigger] b[i]))
            == identities(a).to_multiset().count(head_identity(b[i])),
    ensures
        same_identities(a, b),
{
    broadcast use vstd::seq_lib::group_to_multiset_ensures;

    let (ma, mb) = (identities(a).to_multiset(), identities(b).to_multiset());
    assert forall|x| ma.count(x) == mb.count(x) by {
        if ma.count(x) > 0 {
            assert(identities(a).contains(x));
            let i = choose|i: int| 0 <= i < identities(a).len() && identities(a)[i] == x;
            assert(head_identity(a[i]) == x);
        } else if mb.count(x) > 0 {
            assert(identities(b).contains(x));
            let i = choose|i: int| 0 <= i < identities(b).len() && identities(b)[i] == x;
            assert(head_identity(b[i]) == x);
        }
    }
    assert(ma =~= mb);
}

/// The identities of the store's heads, in order.
pub open spec fn store_identities(store: Seq<StoreHead>) -> Seq<(usize, Seq<char>, Seq<char>, Seq<char>, Seq<char>, Seq<char>)> {
    store.map_values(|h: StoreHead| base_identity(h.id, &h.base))
}

/// The cached heads and the store's heads hold the same identities, each as
/// often.
pub open spec fn heads_unchanged(cached: Seq<WlHead>, store: Seq<StoreHead>) -> bool {
    identities(cached).to_multiset() == store_identities(store).to_multiset()
}

/// The restriction, if any, lets the profile through.
pub open spec fn admitted(rest: Option<Restriction>, p: Profile) -> bool {
    match rest {
        Some(r) => r.pattern.matches_spec(p.name@),
        None => true,
    }
}

/// A profile that yields variants for `heads`: as many outputs as heads,
/// no fewer pairable pairs than heads and no more than their square, and
/// some of them assigning every output its own head.
pub open spec fn matchable(p: Profile, heads: Seq<WlHead>) -> bool {
    let ps = pairable_pairs(p.outputs@, heads);
    let n = heads.len();
    &&& p.outputs@.len() == n
    &&& n <= ps.len() <= n * n
    &&& assignable(ps, n)
}

/// `q` is a queue of variants generated for `heads`: ranked, each valid for
/// the heads and of a profile the restriction lets through, with a variant
/// for every such profile that matches the heads.
pub open spec fn generation(profiles: Seq<Profile>, restriction: Option<Restriction>, heads: Seq<WlHead>, q: Seq<ValidVariant>) -> bool {
    &&& ranked(q)
    &&& forall|i: int|
        0 <= i < q.len() ==> {
            let v = #[trigger] q[i];
            &&& v.profile < profiles.len()
            &&& pairings_valid(v.pairings@, profiles[v.profile as int].outputs@, heads)
            &&& admitted(restriction, profiles[v.profile as int])
        }
    &&& forall|p: int|
        0 <= p < profiles.len() && admitted(restriction, profiles[p]) && #[trigger] matchable(profiles[p], heads)
            ==> exists|i: int| 0 <= i < q.len() && (#[trigger] q[i]).profile == p
}

/// Owns the profiles and the queue of variants still to try.
pub struct ProfileManager {
    profiles: Vec<Profile>,
    variants: Vec<ValidVariant>,
    reports: Vec<MatchReport>,
    restriction: Option<Restriction>,
    cached_heads: Vec<WlHead>,
}

impl ProfileManager {
    pub closed spec fn profiles_spec(&self) -> Seq<Profile> {
        self.profiles@
    }

    /// The variants still to try, best first.
    pub closed spec fn variants_spec(&self) -> Seq<ValidVariant> {
        self.variants@
    }

    /// The heads the variants were made for.
    pub closed spec fn cached_heads_spec(&self) -> Seq<WlHead> {
        self.cached_heads@
    }

    pub closed spec fn restriction_spec(&self) -> Option<Restriction> {
        self.restriction
    }

    /// The pending variants are ranked and fit the cached heads.
    pub open spec fn wf(&self) -> bool {
        &&& ranked(self.variants_spec())
        &&& forall|i: int|
            0 <= i < self.variants_spec().len() ==> {
                let v = #[trigger] self.variants_spec()[i];
                &&& v.profile < self.profiles_spec().len()
                &&& pairings_valid(v.pairings@, self.profiles_spec()[v.profile as int].outputs@, self.cached_heads_spec())
            }
    }

    pub fn new(profiles: Vec<Profile>) -> (r: ProfileManager)
        ensures
            r.wf(),
            r.profiles_spec() == profiles@,
            r.variants_spec().len() == 0,
            r.cached_heads_spec().len() == 0,
            r.restriction_spec() is None,
    {
        ProfileManager {
            profiles,
            variants: Vec::new(),
            reports: Vec::new(),
            restriction: None,
            cached_heads: Vec::new(),
        }
    }

    pub fn profiles(&self) -> (r: &Vec<Profile>)
        ensures
            r@ == self.profiles_spec(),
    {
        &self.profiles
    }

    /// Replaces the profiles; the queue and the cached heads are dropped.
    pub fn set_profiles(&mut self, profiles: Vec<Profile>)
        ensures
            final(self).wf(),
            final(self).profiles_spec() == profiles@,
            final(self).variants_spec().len() == 0,
            final(self).cached_heads_spec().len() == 0,
            final(self).restriction_spec() == old(self).restriction_spec(),
    {
        self.profiles = profiles;
        self.variants = Vec::new();
        self.reports = Vec::new();
        self.cached_heads = Vec::new();
    }

    pub fn cached_heads(&self) -> (r: &Vec<WlHead>)
        ensures
            r@ == self.cached_heads_spec(),
    {
        &self.cached_heads
    }

    /// The reports of the last generation of variants.
    pub closed spec fn reports_spec(&self) -> Seq<MatchReport> {
        self.reports@
    }

    pub fn reports(&self) -> (r: &Vec<MatchReport>)
        ensures
            r@ == self.reports_spec(),
    {
        &self.reports
    }

    pub fn pending(&self) -> (r: usize)
        ensures
            r == self.variants_spec().len(),
    {
        self.variants.len()
    }

    /// Takes the best variant still to try.
    pub fn next_variant(&mut self) -> (r: Option<ValidVariant>)
        requires
            old(self).wf(),
        ensures
            final(self).wf(),
            final(self).profiles_spec() == old(self).profiles_spec(),
            final(self).cached_heads_spec() == old(self).cached_heads_spec(),
            final(self).restriction_spec() == old(self).restriction_spec(),
            old(self).variants_spec().len() == 0 ==> r is None && final(self).variants_spec().len() == 0,
            old(self).variants_spec().len() > 0 ==> r == Some(old(self).variants_spec()[0])
                && final(self).variants_spec() == old(self).variants_spec().drop_first(),
    {
        if self.variants.len() == 0 {
            return None;
        }
        let v = self.variants.remove(0);
        proof {
            assert(self.variants@ =~= old(self).variants@.drop_first());
            assert forall|i: int| 0 <= i < self.variants@.len() implies #[trigger] self.variants@[i] == old(self).variants@[i + 1] by {}
        }
        Some(v)
    }

    /// Only profiles whose name matches will be considered next time.
    pub fn restrict(&mut self, rest: Restriction)
        requires
            old(self).wf(),
        ensures
            final(self).wf(),
            final(self).restriction_spec() == Some(rest),
            final(self).profiles_spec() == old(self).profiles_spec(),
            final(self).variants_spec() == old(self).variants_spec(),
            final(self).cached_heads_spec() == old(self).cached_heads_spec(),
    {
        self.restriction = Some(rest);
    }

    /// Lifts a restriction, handing it back.
    pub fn lift_restriction(&mut self) -> (r: Option<Restriction>)
        requires
            old(self).wf(),
        ensures
            final(self).wf(),
            r == old(self).restriction_spec(),
            final(self).restriction_spec() is None,
            final(self).profiles_spec() == old(self).profiles_spec(),
            final(self).variants_spec() == old(self).variants_spec(),
            final(self).cached_heads_spec() == old(self).cached_heads_spec(),
    {
        let mut r: Option<Restriction> = None;
        std::mem::swap(&mut r, &mut self.restriction);
        r
    }

    /// Whether some profile's name matches the restriction.
    pub fn test_restriction(&self, rest: &Restriction) -> (r: bool)
        ensures
            r == exists|i: int| 0 <= i < self.profiles_spec().len() && rest.pattern.matches_spec((#[trigger] self.profiles_spec()[i]).name@),
    {
        let mut i: usize = 0;
        while i < self.profiles.len()
            invariant
                i <= self.profiles@.len(),
                forall|k: int| 0 <= k < i ==> !rest.pattern.matches_spec((#[trigger] self.profiles@[k]).name@),
            decreases self.profiles@.len() - i,
        {
            if rest.pattern.matches(self.profiles[i].name.as_str()).0 {
                proof {
                    assert(rest.pattern.matches_spec(self.profiles_spec()[i as int].name@));
                }
                return true;
            }
            i += 1;
        }
        false
    }

    /// Drops the queue, the reports and the cached heads.
    pub fn clear(&mut self)
        ensures
            final(self).wf(),
            final(self).variants_spec().len() == 0,
            final(self).cached_heads_spec().len() == 0,
            final(self).profiles_spec() == old(self).profiles_spec(),
            final(self).restriction_spec() == old(self).restriction_spec(),
    {
        self.variants = Vec::new();
        self.reports = Vec::new();
        self.cached_heads = Vec::new();
    }

    /// Forgets the heads the variants were made for, so that the next check
    /// reports a change.
    pub fn clear_cached_heads(&mut self)
        ensures
            final(self).cached_heads_spec().len() == 0,
            final(self).profiles_spec() == old(self).profiles_spec(),
            final(self).restriction_spec() == old(self).restriction_spec(),
            final(self).variants_spec().len() == 0,
            final(self).wf(),
    {
        self.cached_heads = Vec::new();
        self.variants = Vec::new();
    }

    /// Whether `heads` differ from the cached heads in the identities they
    /// hold, counted with multiplicity: id, serial number, model, make,
    /// description and name.
    pub fn is_cache_outdated(&self, heads: &Vec<WlHead>) -> (r: bool)
        ensures
            r == !same_identities(self.cached_heads_spec(), heads@),
    {
        let a = counts_agree(&self.cached_heads, heads);
        let b = counts_agree(heads, &self.cached_heads);
        proof {
            if a && b {
                lemma_counts_agree(self.cached_heads@, heads@);
            }
        }
        !(a && b)
    }

    /// The indices of the profiles the restriction lets through, in order.
    fn restricted_profiles(&self) -> (r: Vec<usize>)
        ensures
            forall|i: int| 0 <= i < r@.len() ==> (#[trigger] r@[i]) < self.profiles_spec().len(),
            forall|i: int|
                0 <= i < r@.len() ==> (self.restriction_spec() matches Some(rest) ==> rest.pattern.matches_spec(
                    self.profiles_spec()[(#[trigger] r@[i]) as int].name@,
                )),
            forall|p: int|
                0 <= p < self.profiles_spec().len() && admitted(self.restriction_spec(), #[trigger] self.profiles_spec()[p])
                    ==> r@.contains(p as usize),
    {
        let mut out: Vec<usize> = Vec::new();
        let mut i: usize = 0;
        while i < self.profiles.len()
            invariant
                i <= self.profiles@.len(),
                forall|k: int| 0 <= k < out@.len() ==> (#[trigger] out@[k]) < i,
                forall|k: int|
                    0 <= k < out@.len() ==> (self.restriction matches Some(rest) ==> rest.pattern.matches_spec(
                        self.profiles@[(#[trigger] out@[k]) as int].name@,
                    )),
                forall|p: int|
                    0 <= p < i && admitted(self.restriction, #[trigger] self.profiles@[p]) ==> out@.contains(p as usize),
            decreases self.profiles@.len() - i,
        {
            let keep = match &self.restriction {
                Some(rest) => rest.pattern.matches(self.profiles[i].name.as_str()).0,
                None => true,
            };
            let ghost prev = out@;
            if keep {
                out.push(i);
                proof {
                    assert(out@[prev.len() as int] == i);
                }
            }
            proof {
                assert forall|p: int| 0 <= p < i + 1 && admitted(self.restriction, #[trigger] self.profiles@[p]) implies out@.contains(p as usize) by {
                    if p < i {
                        let z = choose|z: int| 0 <= z < prev.len() && prev[z] == p as usize;
                        assert(out@[z] == p as usize);
                    }
                }
            }
            i += 1;
        }
        out
    }

    /// Ranks variants from best to worst; variants that rank alike keep
    /// their order.
    pub fn collect_variants(input: Vec<ValidVariant>) -> (r: Vec<ValidVariant>)
        ensures
            ranked(r@),
            r@.to_multiset() == input@.to_multiset(),
            r@.len() == input@.len(),
            exists|pos: Seq<int>| #[trigger] stably_placed(r@, input@, pos),
    {
        broadcast use vstd::seq_lib::group_to_multiset_ensures;

        let ghost orig = input@;
        let total = input.len();
        let mut rest = input;
        let mut out: Vec<ValidVariant> = Vec::new();
        let mut i: usize = 0;
        let ghost mut pos: Seq<int> = Seq::empty();
        while rest.len() > 0
            invariant
                orig.len() == i + rest@.len(),
                orig.len() == total,
                rest@ == orig.subrange(i as int, orig.len() as int),
                ranked(out@),
                out@.to_multiset() == orig.subrange(0, i as int).to_multiset(),
                out@.len() == i,
                stably_placed(out@, orig, pos),
                forall|k: int| 0 <= k < out@.len() ==> #[trigger] pos[k] < i,
            decreases rest@.len(),
        {
            let x = rest.remove(0);
            let xs = x.specificity();
            let xd = x.mode_deviation();
            let mut p: usize = 0;
            while p < out.len() && !(xs > out[p].specificity() || (xs == out[p].specificity() && xd < out[p].mode_deviation()))
                invariant
                    p <= out@.len(),
                    xs as nat == variant_specificity(x.pairings@),
                    xd as nat == variant_deviation(x.pairings@),
                    forall|j: int| 0 <= j < p ==> rank_le(out@[j].pairings@, x.pairings@),
                decreases out@.len() - p,
            {
                p += 1;
            }
            let ghost before = out@;
            proof {
                assert(orig[i as int] == x);
            }
            out.insert(p, x);
            let ghost pbefore = pos;
            proof {
                pos = pos.insert(p as int, i as int);
                assert forall|k: int| 0 <= k < out@.len() implies 0 <= #[trigger] pos[k] < orig.len() && out@[k] == orig[pos[k]]
                    && pos[k] < i + 1 by {
                    if k < p {
                        assert(pos[k] == pbefore[k] && out@[k] == before[k]);
                    } else if k > p {
                        assert(pos[k] == pbefore[k - 1] && out@[k] == before[k - 1]);
                    }
                }
                assert forall|a: int, b: int| 0 <= a < b < out@.len() implies pos[a] != pos[b] by {
                    if a != p && b != p {
                        let (a2, b2) = (if a < p { a } else { a - 1 }, if b < p { b } else { b - 1 });
                        assert(pos[a] == pbefore[a2] && pos[b] == pbefore[b2]);
                    } else if a == p {
                        assert(pos[b] == pbefore[b - 1]);
                    } else {
                        assert(pos[a] == pbefore[a]);
                    }
                }
                assert forall|a: int, b: int|
                    0 <= a < b < out@.len() && same_rank(out@[a].pairings@, out@[b].pairings@) implies pos[a] < pos[b] by {
                    if a != p && b != p {
                        let (a2, b2) = (if a < p { a } else { a - 1 }, if b < p { b } else { b - 1 });
                        assert(pos[a] == pbefore[a2] && pos[b] == pbefore[b2]);
                        assert(out@[a] == before[a2] && out@[b] == before[b2]);
                    } else if b == p {
                        assert(pos[a] == pbefore[a]);
                    } else {
                        assert(out@[b] == before[b - 1]);
                        assert(p < before.len());
                        if b - 1 > p {
                            assert(rank_le(before[p as int].pairings@, before[b - 1].pairings@));
                        }
                        assert(false);
                    }
                }
                assert(orig.subrange(0, i + 1) =~= orig.subrange(0, i as int).push(x));
                vstd::seq_lib::to_multiset_insert(before, p as int, x);
                vstd::seq_lib::to_multiset_build(orig.subrange(0, i as int), x);
                assert(rest@ =~= orig.subrange(i + 1, orig.len() as int));
                assert forall|a: int, b: int| 0 <= a < b < out@.len() implies rank_le(out@[a].pairings@, out@[b].pairings@) by {
                    if b < p {
                        assert(out@[a] == before[a] && out@[b] == before[b]);
                    } else if b == p {
                        assert(out@[a] == before[a]);
                    } else if a == p {
                        assert(out@[b] == before[b - 1]);
                        if b - 1 > p {
                            assert(rank_le(before[p as int].pairings@, before[b - 1].pairings@));
                        }
                    } else if a < p {
                        assert(out@[a] == before[a] && out@[b] == before[b - 1]);
                    } else {
                        assert(out@[a] == before[a - 1] && out@[b] == before[b - 1]);
                    }
                }
            }
            i += 1;
        }
        proof {
            assert(orig.subrange(0, i as int) =~= orig);
            assert(stably_placed(out@, orig, pos));
        }
        out
    }

    /// Matches every profile the restriction lets through, and has the same
    /// number of outputs as there are heads, against `heads`; queues the
    /// variants found, ranked; lifts the restriction and caches the heads.
    /// Fewer than 2^31 - 1 heads are required, the bound the matcher's
    /// `isize` vertices need on every target.
    pub fn generate_variants(&mut self, heads: Vec<WlHead>)
        requires
            heads@.len() < 0x7fff_ffff,
        ensures
            final(self).wf(),
            generation(old(self).profiles_spec(), old(self).restriction_spec(), heads@, final(self).variants_spec()),
            final(self).cached_heads_spec() == heads@,
            final(self).restriction_spec() is None,
            final(self).profiles_spec() == old(self).profiles_spec(),
            forall|i: int|
                0 <= i < final(self).variants_spec().len() ==> (old(self).restriction_spec() matches Some(rest)
                    ==> rest.pattern.matches_spec(
                    final(self).profiles_spec()[(#[trigger] final(self).variants_spec()[i]).profile as int].name@,
                )),
            forall|i: int|
                0 <= i < final(self).reports_spec().len() ==> {
                    let rp = (#[trigger] final(self).reports_spec()[i]).profile;
                    &&& rp < old(self).profiles_spec().len()
                    &&& admitted(old(self).restriction_spec(), old(self).profiles_spec()[rp as int])
                    &&& old(self).profiles_spec()[rp as int].outputs@.len() == heads@.len()
                },
            forall|p: int|
                0 <= p < old(self).profiles_spec().len() && admitted(old(self).restriction_spec(), old(self).profiles_spec()[p])
                    && #[trigger] matchable(old(self).profiles_spec()[p], heads@) ==> exists|i: int|
                    0 <= i < final(self).variants_spec().len() && (#[trigger] final(self).variants_spec()[i]).profile == p,
    {
        let chosen = self.restricted_profiles();
        let ghost rest0 = self.restriction;
        let ghost profiles0 = self.profiles@;
        let plen = self.profiles.len();
        proof {
            assert forall|p: int| 0 <= p < profiles0.len() && #[trigger] admitted(rest0, profiles0[p]) implies chosen@.contains(p as usize) by {
                assert(admitted(self.restriction_spec(), self.profiles_spec()[p]));
            }
        }
        let mut lifted: Option<Restriction> = None;
        std::mem::swap(&mut lifted, &mut self.restriction);
        let mut found: Vec<ValidVariant> = Vec::new();
        let mut reports: Vec<MatchReport> = Vec::new();
        let mut c: usize = 0;
        while c < chosen.len()
            invariant
                c <= chosen@.len(),
                heads@.len() < 0x7fff_ffff,
                self.profiles@ == profiles0,
                plen == profiles0.len(),
                forall|i: int|
                    0 <= i < reports@.len() ==> {
                        let rp = (#[trigger] reports@[i]).profile;
                        &&& rp < profiles0.len()
                        &&& admitted(rest0, profiles0[rp as int])
                        &&& profiles0[rp as int].outputs@.len() == heads@.len()
                    },
                forall|p: int| 0 <= p < profiles0.len() && #[trigger] admitted(rest0, profiles0[p]) ==> chosen@.contains(p as usize),
                forall|i: int| 0 <= i < chosen@.len() ==> (#[trigger] chosen@[i]) < self.profiles@.len(),
                forall|i: int|
                    0 <= i < chosen@.len() ==> (rest0 matches Some(rest) ==> rest.pattern.matches_spec(
                        self.profiles@[(#[trigger] chosen@[i]) as int].name@,
                    )),
                forall|i: int|
                    0 <= i < found@.len() ==> {
                        let v = #[trigger] found@[i];
                        &&& v.profile < self.profiles@.len()
                        &&& pairings_valid(v.pairings@, self.profiles@[v.profile as int].outputs@, heads@)
                        &&& (rest0 matches Some(rest) ==> rest.pattern.matches_spec(self.profiles@[v.profile as int].name@))
                    },
                forall|q: int|
                    0 <= q < c && #[trigger] matchable(self.profiles@[chosen@[q] as int], heads@) ==> exists|i: int|
                        0 <= i < found@.len() && (#[trigger] found@[i]).profile == chosen@[q],
            decreases chosen@.len() - c,
        {
            let pi = chosen[c];
            let ghost found0 = found@;
            if self.profiles[pi].outputs.len() == heads.len() {
                match ProfileMatcher::create_report(&self.profiles[pi], pi, &heads) {
                    Ok(mut rep) => {
                        let mut vs: Vec<ValidVariant> = Vec::new();
                        std::mem::swap(&mut vs, &mut rep.valid_variants);
                        while vs.len() > 0
                            invariant
                                pi < self.profiles@.len(),
                                rest0 matches Some(rest) ==> rest.pattern.matches_spec(self.profiles@[pi as int].name@),
                                forall|i: int|
                                    0 <= i < vs@.len() ==> (#[trigger] vs@[i]).profile == pi && pairings_valid(
                                        vs@[i].pairings@,
                                        self.profiles@[pi as int].outputs@,
                                        heads@,
                                    ),
                                found0.len() <= found@.len(),
                                forall|i: int| 0 <= i < found0.len() ==> #[trigger] found@[i] == found0[i],
                                (vs@.len() > 0 || found@.len() > found0.len()),
                                found@.len() > found0.len() ==> found@[found0.len() as int].profile == pi,
                                forall|i: int|
                                    0 <= i < found@.len() ==> {
                                        let v = #[trigger] found@[i];
                                        &&& v.profile < self.profiles@.len()
                                        &&& pairings_valid(v.pairings@, self.profiles@[v.profile as int].outputs@, heads@)
                                        &&& (rest0 matches Some(rest) ==> rest.pattern.matches_spec(self.profiles@[v.profile as int].name@))
                                    },
                            decreases vs@.len(),
                        {
                            let ghost prev = found@;
                            let ghost vprev = vs@;
                            let v = vs.remove(0);
                            proof {
                                assert(v == vprev[0]);
                                assert forall|i: int| 0 <= i < vs@.len() implies #[trigger] vs@[i] == vprev[i + 1] by {}
                            }
                            found.push(v);
                            proof {
                                assert forall|i: int| 0 <= i < found@.len() implies {
                                    let v = #[trigger] found@[i];
                                    &&& v.profile < self.profiles@.len()
                                    &&& pairings_valid(v.pairings@, self.profiles@[v.profile as int].outputs@, heads@)
                                    &&& (rest0 matches Some(rest) ==> rest.pattern.matches_spec(self.profiles@[v.profile as int].name@))
                                } by {
                                    if i < prev.len() {
                                        assert(found@[i] == prev[i]);
                                    }
                                }
                            }
                        }
                        let ghost rprev = reports@;
                        proof {
                            assert(admitted(rest0, profiles0[pi as int])) by {
                                if let Some(r) = rest0 {
                                    assert(r.pattern.matches_spec(self.profiles@[pi as int].name@));
                                }
                            }
                        }
                        reports.push(rep);
                        proof {
                            assert forall|i: int| 0 <= i < reports@.len() implies {
                                let rp = (#[trigger] reports@[i]).profile;
                                &&& rp < profiles0.len()
                                &&& admitted(rest0, profiles0[rp as int])
                                &&& profiles0[rp as int].outputs@.len() == heads@.len()
                            } by {
                                if i < rprev.len() {
                                    assert(reports@[i] == rprev[i]);
                                }
                            }
                        }
                    },
                    Err(_) => {},
                }
            }
            proof {
                assert forall|q: int|
                    0 <= q < c + 1 && #[trigger] matchable(self.profiles@[chosen@[q] as int], heads@) implies exists|i: int|
                        0 <= i < found@.len() && (#[trigger] found@[i]).profile == chosen@[q] by {
                    if q < c {
                        let i = choose|i: int| 0 <= i < found0.len() && (#[trigger] found0[i]).profile == chosen@[q];
                        assert(found@[i] == found0[i]);
                    } else {
                        assert(found@[found0.len() as int].profile == pi);
                    }
                }
            }
            c += 1;
        }
        let ghost found_all = found@;
        let ranked_variants = ProfileManager::collect_variants(found);
        proof {
            broadcast use vstd::seq_lib::group_to_multiset_ensures;

            assert forall|p: int|
                0 <= p < self.profiles@.len() && admitted(rest0, self.profiles@[p])
                    && #[trigger] matchable(self.profiles@[p], heads@) implies exists|i: int|
                    0 <= i < ranked_variants@.len() && (#[trigger] ranked_variants@[i]).profile == p by {
                assert(admitted(rest0, profiles0[p]));
                assert(chosen@.contains(p as usize));
                let q = choose|q: int| 0 <= q < chosen@.len() && chosen@[q] == p as usize;
                assert(p < plen);
                assert(chosen@[q] as int == p);
                assert(matchable(self.profiles@[chosen@[q] as int], heads@));
                let i = choose|i: int| 0 <= i < found_all.len() && (#[trigger] found_all[i]).profile == chosen@[q];
                let v = found_all[i];
                assert(found_all.to_multiset().count(v) > 0);
                assert(ranked_variants@.to_multiset().count(v) > 0);
                assert(ranked_variants@.contains(v));
                let j = choose|j: int| 0 <= j < ranked_variants@.len() && ranked_variants@[j] == v;
            }

            assert forall|i: int| 0 <= i < ranked_variants@.len() implies {
                let v = #[trigger] ranked_variants@[i];
                &&& v.profile < self.profiles@.len()
                &&& pairings_valid(v.pairings@, self.profiles@[v.profile as int].outputs@, heads@)
                &&& (rest0 matches Some(rest) ==> rest.pattern.matches_spec(self.profiles@[v.profile as int].name@))
            } by {
                let v = ranked_variants@[i];
                assert(ranked_variants@.to_multiset().count(v) > 0);
                assert(found@.to_multiset().count(v) > 0);
                assert(found@.contains(v));
                let j = choose|j: int| 0 <= j < found@.len() && found@[j] == v;
            }
        }
        self.variants = ranked_variants;
        self.reports = reports;
        self.cached_heads = heads;
        proof {
            assert forall|i: int| 0 <= i < self.variants@.len() implies admitted(
                rest0,
                profiles0[(#[trigger] self.variants@[i]).profile as int],
            ) by {
                let v = self.variants@[i];
                if let Some(r) = rest0 {
                    assert(r.pattern.matches_spec(self.profiles@[v.profile as int].name@));
                }
            }
        }
    }
}

/// Every variant waiting in the queue has one pairing per head of the
/// snapshot it was made for.
pub proof fn lemma_pending_variants_cover_heads(pm: &ProfileManager)
    requires
        pm.wf(),
    ensures
        forall|i: int|
            0 <= i < pm.variants_spec().len() ==> (#[trigger] pm.variants_spec()[i]).pairings@.len()
                == pm.cached_heads_spec().len(),
{
    assert forall|i: int| 0 <= i < pm.variants_spec().len() implies (#[trigger] pm.variants_spec()[i]).pairings@.len()
        == pm.cached_heads_spec().len() by {
        let v = pm.variants_spec()[i];
        assert(pairings_valid(v.pairings@, pm.profiles_spec()[v.profile as int].outputs@, pm.cached_heads_spec()));
    }
}

/// Comparing with a snapshot of the store is comparing with the store.
pub proof fn lemma_snapshot_identities(cached: Seq<WlHead>, snapshot: Seq<WlHead>, store: Seq<StoreHead>)
    requires
        snapshot.len() == store.len(),
        forall|i: int| 0 <= i < store.len() ==> head_identity(#[trigger] snapshot[i]) == base_identity(store[i].id, &store[i].base),
    ensures
        same_identities(cached, snapshot) <==> heads_unchanged(cached, store),
{
    assert(identities(snapshot) =~= store_identities(store));
}

} // verus!
