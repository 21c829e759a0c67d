//! Matching profiles against heads: pairing outputs with heads and modes,
//! finding full assignments and expanding them into variants.
use vstd::prelude::*;

use crate::head::{WlGenericId, WlHead, WlMode};
use crate::mode::{Mode, MAX_RR_DEVIATION};
use crate::outside::{cartesian_product, in_product, product_len, index_combinations, is_combination, is_matching, max_matching};
use crate::profile::{Output, Profile};
use crate::search::{query_texts, search_ok, search_specificity, SearchField};
use crate::variant::VariantState;

verus! {

/// The key modes are ordered by: pixel count, width, height, refresh.
pub open spec fn mode_key(m: WlMode) -> (int, int, int, int) {
    (
        m.base.width as int * m.base.height as int,
        m.base.width as int,
        m.base.height as int,
        m.base.refresh as int,
    )
}

/// Lexicographic order on mode keys.
pub open spec fn key_lt(a: (int, int, int, int), b: (int, int, int, int)) -> bool {
    a.0 < b.0 || (a.0 == b.0 && (a.1 < b.1 || (a.1 == b.1 && (a.2 < b.2 || (a.2 == b.2
        && a.3 < b.3)))))
}

pub open spec fn mode_le(a: WlMode, b: WlMode) -> bool {
    !key_lt(mode_key(b), mode_key(a))
}

pub open spec fn mode_lt(a: WlMode, b: WlMode) -> bool {
    key_lt(mode_key(a), mode_key(b))
}

/// Ascending by mode key.
pub open spec fn sorted_modes(s: Seq<WlMode>) -> bool {
    forall|i: int, j: int| 0 <= i < j < s.len() ==> mode_le(s[i], s[j])
}

proof fn lemma_pixels_fit(w: int, h: int)
    requires
        i32::MIN <= w <= i32::MAX,
        i32::MIN <= h <= i32::MAX,
    ensures
        i64::MIN <= w * h <= i64::MAX,
{
    assert(-0x8000_0000 * 0x8000_0000 <= w * h <= 0x8000_0000 * 0x8000_0000) by (nonlinear_arith)
        requires
            -0x8000_0000 <= w <= 0x8000_0000,
            -0x8000_0000 <= h <= 0x8000_0000,
    ;
}

fn mode_less(a: &WlMode, b: &WlMode) -> (r: bool)
    ensures
        r == mode_lt(*a, *b),
{
    proof {
        lemma_pixels_fit(a.base.width as int, a.base.height as int);
        lemma_pixels_fit(b.base.width as int, b.base.height as int);
    }
    let pa = (a.base.width as i64) * (a.base.height as i64);
    let pb = (b.base.width as i64) * (b.base.height as i64);
    if pa != pb {
        return pa < pb;
    }
    if a.base.width != b.base.width {
        return a.base.width < b.base.width;
    }
    if a.base.height != b.base.height {
        return a.base.height < b.base.height;
    }
    a.base.refresh < b.base.refresh
}

/// Sorts modes ascending by pixel count, width, height and refresh; modes
/// with equal keys keep their order.
pub fn sort_modes(modes: &mut Vec<WlMode>)
    ensures
        sorted_modes(final(modes)@),
        final(modes)@.to_multiset() == old(modes)@.to_multiset(),
        final(modes)@.len() == old(modes)@.len(),
{
    broadcast use vstd::seq_lib::group_to_multiset_ensures;

    let mut out: Vec<WlMode> = Vec::new();
    let mut i: usize = 0;
    while i < modes.len()
        invariant
            i <= modes@.len(),
            modes@ == old(modes)@,
            sorted_modes(out@),
            out@.to_multiset() == modes@.subrange(0, i as int).to_multiset(),
            out@.len() == i,
        decreases modes@.len() - i,
    {
        let x = modes[i];
        let mut p: usize = 0;
        while p < out.len() && !mode_less(&x, &out[p])
            invariant
                p <= out@.len(),
                forall|j: int| 0 <= j < p ==> mode_le(out@[j], x),
            decreases out@.len() - p,
        {
            p += 1;
        }
        let ghost before = out@;
        out.insert(p, x);
        proof {
            assert(modes@.subrange(0, i + 1) =~= modes@.subrange(0, i as int).push(x));
            vstd::seq_lib::to_multiset_insert(before, p as int, x);
            vstd::seq_lib::to_multiset_build(modes@.subrange(0, i as int), x);
            assert forall|a: int, b: int| 0 <= a < b < out@.len() implies mode_le(out@[a], out@[b]) by {
                if b < p {
                    assert(out@[a] == before[a] && out@[b] == before[b]);
                } else if b == p {
                    assert(out@[a] == before[a]);
                } else if a == p {
                    assert(out@[b] == before[b - 1]);
                    assert(mode_lt(x, before[p as int]));
                    assert(mode_le(before[p as int], before[b - 1]) || p == b - 1);
                } else if a < p {
                    assert(out@[a] == before[a] && out@[b] == before[b - 1]);
                } else {
                    assert(out@[a] == before[a - 1] && out@[b] == before[b - 1]);
                }
            }
        }
        i += 1;
    }
    proof {
        assert(modes@.subrange(0, i as int) =~= modes@);
    }
    *modes = out;
}

/// Whether two refresh rates in millihertz are close enough to count as the
/// same, and how far apart they are.
pub fn compare_mode_refresh(refresh: i32, mode: &WlMode) -> (r: (bool, u32))
    ensures
        r.1 as int == if refresh as int >= mode.base.refresh as int {
            refresh as int - mode.base.refresh as int
        } else {
            mode.base.refresh as int - refresh as int
        },
        r.0 <==> r.1 <= MAX_RR_DEVIATION,
{
    let a = refresh as i64;
    let b = mode.base.refresh as i64;
    let d: i64 = if a >= b {
        a - b
    } else {
        b - a
    };
    (d <= MAX_RR_DEVIATION as i64, d as u32)
}

/// Whether a head's mode satisfies a wanted width, height and refresh.
pub open spec fn mode_fits(m: WlMode, target: Mode) -> bool {
    match target {
        Mode::WiHe(w, h) => m.base.width == w && m.base.height == h,
        Mode::WiHeRe(w, h, r) => m.base.width == w && m.base.height == h && -MAX_RR_DEVIATION <= r
            - m.base.refresh <= MAX_RR_DEVIATION,
        _ => true,
    }
}

/// Descending by mode key.
pub open spec fn sorted_modes_desc(s: Seq<WlMode>) -> bool {
    forall|i: int, j: int| 0 <= i < j < s.len() ==> mode_le(s[j], s[i])
}

/// What selecting the modes of a head for `target` yields: see
/// [`collect_modes`].
pub open spec fn collected(modes: Seq<WlMode>, target: Mode, v: Seq<WlMode>) -> bool {
    &&& forall|i: int| 0 <= i < v.len() ==> modes.contains(#[trigger] v[i])
    &&& target is Best ==> v.len() == if modes.len() > 0 {
        1int
    } else {
        0
    }
    &&& target is Best && v.len() == 1 ==> forall|j: int|
        0 <= j < modes.len() ==> mode_le(#[trigger] modes[j], v[0])
    &&& target is Preferred ==> v.len() == if modes.len() > 0 {
        1int
    } else {
        0
    }
    &&& target is Preferred && v.len() == 1 && (exists|j: int|
        0 <= j < modes.len() && (#[trigger] modes[j]).base.preferred) ==> v[0].base.preferred
        && forall|j: int|
        0 <= j < modes.len() && (#[trigger] modes[j]).base.preferred ==> mode_le(
            modes[j],
            v[0],
        )
    &&& target is Preferred && v.len() == 1 && !(exists|j: int|
        0 <= j < modes.len() && (#[trigger] modes[j]).base.preferred) ==> forall|j: int|
        0 <= j < modes.len() ==> mode_le(#[trigger] modes[j], v[0])
    &&& (target is WiHe || target is WiHeRe) ==> {
        &&& sorted_modes_desc(v)
        &&& forall|i: int| 0 <= i < v.len() ==> mode_fits(#[trigger] v[i], target)
        &&& forall|j: int|
            0 <= j < modes.len() && mode_fits(#[trigger] modes[j], target) ==> v.contains(
                modes[j],
            )
    }
}

/// The modes of a head that satisfy `target`. `Best` gives the mode with the
/// greatest key, `Preferred` the greatest preferred one or else the best, and
/// a size, with or without refresh, every fitting mode from the greatest key
/// down. Custom modes are not looked up.
pub fn collect_modes(modes: &Vec<WlMode>, target: Mode) -> (r: Option<Vec<WlMode>>)
    ensures
r is None <==> target is WiHeReCustom,
r matches Some(v) ==> collected(modes@, target, v@),
{
    broadcast use vstd::seq_lib::group_to_multiset_ensures;

    if let Mode::WiHeReCustom(_, _, _) = target {
return None;
    }
    let mut sorted = modes.clone();
    proof {
assert(sorted@ =~= modes@);
    }
    sort_modes(&mut sorted);
    let n = sorted.len();
    let mut desc: Vec<WlMode> = Vec::new();
    let mut i: usize = 0;
    while i < n
invariant
    n == sorted@.len(),
    i <= n,
    desc@.len() == i,
    forall|j: int| 0 <= j < i ==> desc@[j] == sorted@[n - 1 - j],
decreases n - i,
    {
desc.push(sorted[n - 1 - i]);
i += 1;
    }
    proof {
assert forall|x: WlMode| modes@.contains(x) <==> desc@.contains(x) by {
    assert(modes@.to_multiset().count(x) == sorted@.to_multiset().count(x));
    if modes@.contains(x) {
        let j = choose|j: int| 0 <= j < sorted@.len() && sorted@[j] == x;
        assert(desc@[n - 1 - j] == x);
    }
    if desc@.contains(x) {
        let j = choose|j: int| 0 <= j < desc@.len() && desc@[j] == x;
        assert(sorted@[n - 1 - j] == x);
    }
}
assert(sorted_modes_desc(desc@)) by {
    assert forall|a: int, b: int| 0 <= a < b < desc@.len() implies mode_le(desc@[b], desc@[a]) by {
        assert(desc@[a] == sorted@[n - 1 - a] && desc@[b] == sorted@[n - 1 - b]);
    }
}
    }
    let mut out: Vec<WlMode> = Vec::new();
    match target {
Mode::Best => {
    if n > 0 {
        out.push(desc[0]);
        proof {
            assert(modes@.contains(desc@[0]));
            assert forall|j: int| 0 <= j < modes@.len() implies mode_le(#[trigger] modes@[j], out@[0]) by {
                assert(desc@.contains(modes@[j]));
                let k = choose|k: int| 0 <= k < desc@.len() && desc@[k] == modes@[j];
                if k > 0 {
                    assert(mode_le(desc@[k], desc@[0]));
                }
            }
        }
    }
},
Mode::Preferred => {
    let mut k: usize = 0;
    while k < n && !desc[k].base.preferred
        invariant
            k <= n == desc@.len(),
            forall|j: int| 0 <= j < k ==> !desc@[j].base.preferred,
        decreases n - k,
    {
        k += 1;
    }
    if k < n {
        out.push(desc[k]);
        proof {
            assert(modes@.contains(desc@[k as int]));
            assert forall|j: int|
                0 <= j < modes@.len() && (#[trigger] modes@[j]).base.preferred implies mode_le(
                modes@[j],
                out@[0],
            ) by {
                assert(desc@.contains(modes@[j]));
                let q = choose|q: int| 0 <= q < desc@.len() && desc@[q] == modes@[j];
                if q != k {
                    assert(mode_le(desc@[q], desc@[k as int]));
                }
            }
        }
    } else if n > 0 {
        out.push(desc[0]);
        proof {
            assert(modes@.contains(desc@[0]));
            assert forall|j: int| 0 <= j < modes@.len() implies !(#[trigger] modes@[j]).base.preferred by {
                assert(desc@.contains(modes@[j]));
            }
            assert forall|j: int| 0 <= j < modes@.len() implies mode_le(#[trigger] modes@[j], out@[0]) by {
                assert(desc@.contains(modes@[j]));
                let k = choose|k: int| 0 <= k < desc@.len() && desc@[k] == modes@[j];
                if k > 0 {
                    assert(mode_le(desc@[k], desc@[0]));
                }
            }
        }
    }
},
_ => {
    let mut j: usize = 0;
    while j < n
        invariant
            j <= n == desc@.len(),
            sorted_modes_desc(desc@),
            !(target is WiHeReCustom || target is Best || target is Preferred),
            forall|a: int| 0 <= a < out@.len() ==> mode_fits(#[trigger] out@[a], target),
            forall|a: int| 0 <= a < out@.len() ==> desc@.subrange(0, j as int).contains(#[trigger] out@[a]),
            forall|a: int| 0 <= a < j && mode_fits(#[trigger] desc@[a], target) ==> out@.contains(desc@[a]),
            forall|a: int, b: int| #![trigger out@[a], desc@[b]] 0 <= a < out@.len() && j <= b < n ==> mode_le(desc@[b], out@[a]),
            sorted_modes_desc(out@),
        decreases n - j,
    {
        let m = desc[j];
        let fits = match target {
            Mode::WiHe(w, h) => m.base.width == w && m.base.height == h,
            Mode::WiHeRe(w, h, r) => m.base.width == w && m.base.height == h
                && compare_mode_refresh(r, &m).0,
            _ => true,
        };
        let ghost prev = out@;
        if fits {
            out.push(m);
            proof {
                assert(out@[prev.len() as int] == m);
            }
        }
        proof {
            assert forall|a: int| 0 <= a < out@.len() implies desc@.subrange(0, j + 1).contains(#[trigger] out@[a]) by {
                if a < prev.len() {
                    assert(prev[a] == out@[a]);
                    let q = choose|q: int| 0 <= q < j && desc@.subrange(0, j as int)[q] == prev[a];
                    assert(desc@.subrange(0, j + 1)[q] == prev[a]);
                } else {
                    assert(desc@.subrange(0, j + 1)[j as int] == m);
                }
            }
            assert forall|a: int, b: int| #![trigger out@[a], desc@[b]] 0 <= a < out@.len() && j + 1 <= b < n implies mode_le(desc@[b], out@[a]) by {
                let q = choose|q: int| 0 <= q < j + 1 && #[trigger] desc@.subrange(0, j + 1)[q] == out@[a];
                assert(desc@[q] == out@[a]);
            }
            assert forall|a: int| 0 <= a < j + 1 && mode_fits(#[trigger] desc@[a], target) implies out@.contains(desc@[a]) by {
                if a < j {
                    let q = choose|q: int| 0 <= q < prev.len() && prev[q] == desc@[a];
                    assert(out@[q] == desc@[a]);
                } else {
                    assert(out@[prev.len() as int] == desc@[a]);
                }
            }
        }
        j += 1;
    }
    proof {
        assert forall|a: int| 0 <= a < out@.len() implies modes@.contains(#[trigger] out@[a]) by {
            let q = choose|q: int| 0 <= q < n && desc@.subrange(0, n as int)[q] == out@[a];
            assert(desc@[q] == out@[a]);
            assert(desc@.contains(out@[a]));
        }
        assert forall|b: int| 0 <= b < modes@.len() && mode_fits(#[trigger] modes@[b], target) implies out@.contains(modes@[b]) by {
            assert(desc@.contains(modes@[b]));
            let q = choose|q: int| 0 <= q < desc@.len() && desc@[q] == modes@[b];
        }
    }
},
    }
    Some(out)
}

/// The texts of a head that searches look at.
pub open spec fn head_texts(h: &WlHead) -> spec_fn(SearchField) -> Seq<char> {
    query_texts(
        h.base.description@,
        h.base.model@,
        h.base.name@,
        h.base.serial_number@,
        h.base.make@,
    )
}

/// Some mode of the head satisfies `target`.
pub open spec fn head_has_mode_for(h: &WlHead, target: Mode) -> bool {
    exists|j: int| 0 <= j < h.modes@.len() && mode_fits(#[trigger] h.modes@[j], target)
}

/// Whether an output can stand for a head: its search succeeds on the head
/// and, where it wants a mode the head has to offer, the head offers one.
pub open spec fn pairable(o: &Output, h: &WlHead) -> bool {
    &&& search_ok(&o.search_pattern, head_texts(h))
    &&& match o.mode {
        None => true,
        Some(m) => m is WiHeReCustom || head_has_mode_for(h, m),
    }
}

/// The output names a mode the head has to offer.
pub open spec fn wants_head_mode(o: &Output) -> bool {
    match o.mode {
        Some(m) => !(m is WiHeReCustom),
        None => false,
    }
}

/// The modes kept for a pairing: none where the output wants no mode of the
/// head's, else some of the head's own modes.
pub open spec fn pairing_modes_ok(modes: Option<Vec<WlMode>>, o: &Output, h: &WlHead) -> bool {
    match modes {
        None => !wants_head_mode(o),
        Some(ms) => {
            &&& ms@.len() > 0
            &&& wants_head_mode(o)
            &&& forall|j: int| 0 <= j < ms@.len() ==> h.modes@.contains(#[trigger] ms@[j])
        },
    }
}

/// An output and a head that may stand for each other, with the head's
/// modes that satisfy the output (none where the output wants no mode of the
/// head's), and how specific the search matched.
pub struct IntermediatePairing {
    pub output: usize,
    pub head: usize,
    pub modes: Option<Vec<WlMode>>,
    pub specificity: u64,
}

/// An output and a head that cannot stand for each other, and why.
#[derive(Debug)]
pub struct UnrelatedPairing {
    pub output: usize,
    pub head: usize,
    pub failed_search: bool,
    pub unsupported_mode: Option<Mode>,
}

/// How one output compares to one head.
pub enum ComparatorResult {
    IntermediatePairing(IntermediatePairing),
    UnrelatedPairing(UnrelatedPairing),
}

/// What comparing every output with every head found.
pub struct ComparatorInfo {
    pub intermediate_pairings: Vec<IntermediatePairing>,
    pub unpaired_heads: Vec<usize>,
    pub unpaired_outputs: Vec<usize>,
    pub unrelated_pairings: Vec<UnrelatedPairing>,
}

/// The pairings are exactly the pairable pairs of outputs and heads, each
/// with its indices in range.
pub open spec fn pairings_sound(ps: Seq<IntermediatePairing>, outputs: Seq<Output>, heads: Seq<WlHead>) -> bool {
    forall|i: int|
        0 <= i < ps.len() ==> {
            let p = #[trigger] ps[i];
            &&& p.output < outputs.len()
            &&& p.head < heads.len()
            &&& pairable(&outputs[p.output as int], &heads[p.head as int])
            &&& p.specificity as nat == search_specificity(&outputs[p.output as int].search_pattern, head_texts(&heads[p.head as int]))
            &&& pairing_modes_ok(p.modes, &outputs[p.output as int], &heads[p.head as int])
        }
}

/// The pairable pairs among the first `h` heads for output `o`.
pub open spec fn pairs_row(outputs: Seq<Output>, heads: Seq<WlHead>, o: nat, h: nat) -> Seq<(usize, usize)>
    decreases h,
{
    if h == 0 {
        Seq::empty()
    } else {
        let prev = pairs_row(outputs, heads, o, (h - 1) as nat);
        if pairable(&outputs[o as int], &heads[h - 1]) {
            prev.push((o as usize, (h - 1) as usize))
        } else {
            prev
        }
    }
}

/// The pairable pairs of the first `o` outputs with all heads.
pub open spec fn pairs_rows(outputs: Seq<Output>, heads: Seq<WlHead>, o: nat) -> Seq<(usize, usize)>
    decreases o,
{
    if o == 0 {
        Seq::empty()
    } else {
        pairs_rows(outputs, heads, (o - 1) as nat) + pairs_row(outputs, heads, (o - 1) as nat, heads.len())
    }
}

/// Every pairable pair of an output and a head, outputs in the outer order
/// and heads in the inner.
pub open spec fn pairable_pairs(outputs: Seq<Output>, heads: Seq<WlHead>) -> Seq<(usize, usize)> {
    pairs_rows(outputs, heads, outputs.len())
}

pub open spec fn pair_of(p: IntermediatePairing) -> (usize, usize) {
    (p.output, p.head)
}

/// The output and head of each pairing.
pub open spec fn pairs_of(ips: Seq<IntermediatePairing>) -> Seq<(usize, usize)> {
    ips.map_values(|p: IntermediatePairing| pair_of(p))
}

/// The pairs at `idx` share no output and no head.
pub open spec fn disjoint_pairs(ps: Seq<(usize, usize)>, idx: Seq<usize>) -> bool {
    forall|a: int, b: int|
        0 <= a < b < idx.len() ==> ps[idx[a] as int].0 != ps[idx[b] as int].0 && ps[idx[a] as int].1
            != ps[idx[b] as int].1
}

/// Some `n` of the pairs share no output and no head.
pub open spec fn assignable(ps: Seq<(usize, usize)>, n: nat) -> bool {
    exists|c: Seq<usize>| #[trigger] is_combination(c, ps.len(), n) && disjoint_pairs(ps, c)
}

/// The indices below `n` of the outputs (or heads) that no pairing uses,
/// in order.
pub open spec fn unpaired_upto(ips: Seq<IntermediatePairing>, n: nat, outputs: bool) -> Seq<usize>
    decreases n,
{
    if n == 0 {
        Seq::empty()
    } else {
        let prev = unpaired_upto(ips, (n - 1) as nat, outputs);
        let used = exists|j: int|
            0 <= j < ips.len() && (if outputs {
                (#[trigger] ips[j]).output
            } else {
                ips[j].head
            }) == (n - 1) as usize;
        if used {
            prev
        } else {
            prev.push((n - 1) as usize)
        }
    }
}

/// Compares outputs with heads.
pub struct Comparator;

impl Comparator {
    /// Compares one output with one head.
    pub fn matcher(output: &Output, oi: usize, head: &WlHead, hi: usize) -> (r: ComparatorResult)
        ensures
            r matches ComparatorResult::IntermediatePairing(p) ==> {
                &&& pairable(output, head)
                &&& p.output == oi && p.head == hi
                &&& p.specificity as nat == search_specificity(&output.search_pattern, head_texts(head))
                &&& pairing_modes_ok(p.modes, output, head)
                &&& p.modes matches Some(ms) ==> collected(head.modes@, output.mode->Some_0, ms@)
            },
            r matches ComparatorResult::UnrelatedPairing(u) ==> !pairable(output, head) && u.output == oi
                && u.head == hi && u.failed_search == !search_ok(&output.search_pattern, head_texts(head))
                && u.unsupported_mode == if wants_head_mode(output) && !head_has_mode_for(head, output.mode->Some_0) {
                Some(output.mode->Some_0)
            } else {
                None
            },
    {
        let result = output.search_pattern.run(
            head.base.description.as_str(),
            head.base.model.as_str(),
            head.base.name.as_str(),
            head.base.serial_number.as_str(),
            head.base.make.as_str(),
        );
        let ok = result.is_ok();
        let specificity = result.specificity();
        let target = match output.mode {
            None => {
                return if ok {
                    ComparatorResult::IntermediatePairing(
                        IntermediatePairing { output: oi, head: hi, modes: None, specificity },
                    )
                } else {
                    ComparatorResult::UnrelatedPairing(
                        UnrelatedPairing { output: oi, head: hi, failed_search: true, unsupported_mode: None },
                    )
                };
            },
            Some(m) => m,
        };
        match collect_modes(&head.modes, target) {
            None => {
                if ok {
                    ComparatorResult::IntermediatePairing(
                        IntermediatePairing { output: oi, head: hi, modes: None, specificity },
                    )
                } else {
                    ComparatorResult::UnrelatedPairing(
                        UnrelatedPairing { output: oi, head: hi, failed_search: true, unsupported_mode: None },
                    )
                }
            },
            Some(modes) => {
                proof {
                    if modes@.len() == 0 {
                        assert(!head_has_mode_for(head, target)) by {
                            if head_has_mode_for(head, target) {
                                let j = choose|j: int| 0 <= j < head.modes@.len() && mode_fits(#[trigger] head.modes@[j], target);
                                assert(head.modes@.len() > 0);
                            }
                        }
                    } else {
                        if target is WiHe || target is WiHeRe {
                            assert(mode_fits(modes@[0], target));
                            assert(head.modes@.contains(modes@[0]));
                            let j = choose|j: int| 0 <= j < head.modes@.len() && head.modes@[j] == modes@[0];
                            assert(mode_fits(head.modes@[j], target));
                        } else {
                            assert(mode_fits(head.modes@[0], target));
                        }
                    }
                }
                if modes.len() == 0 || !ok {
                    let unsupported = if modes.len() == 0 {
                        Some(target)
                    } else {
                        None
                    };
                    ComparatorResult::UnrelatedPairing(
                        UnrelatedPairing { output: oi, head: hi, failed_search: !ok, unsupported_mode: unsupported },
                    )
                } else {
                    ComparatorResult::IntermediatePairing(
                        IntermediatePairing { output: oi, head: hi, modes: Some(modes), specificity },
                    )
                }
            },
        }
    }

    /// Compares every output with every head, outputs in the outer loop.
    pub fn collect_intermediate_pairings(outputs: &Vec<Output>, heads: &Vec<WlHead>) -> (r: ComparatorInfo)
        ensures
            pairings_sound(r.intermediate_pairings@, outputs@, heads@),
            pairs_of(r.intermediate_pairings@) == pairable_pairs(outputs@, heads@),
            r.intermediate_pairings@.len() + r.unrelated_pairings@.len() == outputs@.len() * heads@.len(),
            r.unpaired_outputs@ == unpaired_upto(r.intermediate_pairings@, outputs@.len(), true),
            r.unpaired_heads@ == unpaired_upto(r.intermediate_pairings@, heads@.len(), false),
            forall|o: int, h: int|
                0 <= o < outputs@.len() && 0 <= h < heads@.len() && #[trigger] pairable(&outputs@[o], &heads@[h])
                    ==> exists|i: int|
                    0 <= i < r.intermediate_pairings@.len() && (#[trigger] r.intermediate_pairings@[i]).output
                        == o && r.intermediate_pairings@[i].head == h,
            forall|i: int, j: int|
                0 <= i < j < r.intermediate_pairings@.len() ==> (r.intermediate_pairings@[i].output,
                r.intermediate_pairings@[i].head) != (r.intermediate_pairings@[j].output,
                r.intermediate_pairings@[j].head),
    {
        let mut ips: Vec<IntermediatePairing> = Vec::new();
        let mut ups: Vec<UnrelatedPairing> = Vec::new();
        let mut o: usize = 0;
        while o < outputs.len()
            invariant
                o <= outputs@.len(),
                ips@.len() + ups@.len() == o * heads@.len(),
                pairs_of(ips@) == pairs_rows(outputs@, heads@, o as nat),
                pairings_sound(ips@, outputs@, heads@),
                forall|i: int| 0 <= i < ips@.len() ==> (#[trigger] ips@[i]).output < o,
                forall|a: int, h: int|
                    0 <= a < o && 0 <= h < heads@.len() && #[trigger] pairable(&outputs@[a], &heads@[h]) ==> exists|i: int|
                        0 <= i < ips@.len() && (#[trigger] ips@[i]).output == a && ips@[i].head == h,
                forall|i: int, j: int|
                    0 <= i < j < ips@.len() ==> (ips@[i].output, ips@[i].head) != (ips@[j].output, ips@[j].head),
            decreases outputs@.len() - o,
        {
            let mut h: usize = 0;
            let ghost start = ips@.len();
            while h < heads.len()
                invariant
                    o < outputs@.len(),
                    h <= heads@.len(),
                    ips@.len() + ups@.len() == o * heads@.len() + h,
                    start <= ips@.len(),
                    pairs_of(ips@) == pairs_rows(outputs@, heads@, o as nat) + pairs_row(outputs@, heads@, o as nat, h as nat),
                    pairings_sound(ips@, outputs@, heads@),
                    forall|i: int| 0 <= i < start ==> (#[trigger] ips@[i]).output < o,
                    forall|i: int| start <= i < ips@.len() ==> (#[trigger] ips@[i]).output == o && ips@[i].head < h,
                    forall|a: int, b: int|
                        0 <= a < o && 0 <= b < heads@.len() && #[trigger] pairable(&outputs@[a], &heads@[b]) ==> exists|i: int|
                            0 <= i < ips@.len() && (#[trigger] ips@[i]).output == a && ips@[i].head == b,
                    forall|b: int|
                        0 <= b < h && #[trigger] pairable(&outputs@[o as int], &heads@[b]) ==> exists|i: int|
                            0 <= i < ips@.len() && (#[trigger] ips@[i]).output == o && ips@[i].head == b,
                    forall|i: int, j: int|
                        0 <= i < j < ips@.len() ==> (ips@[i].output, ips@[i].head) != (ips@[j].output, ips@[j].head),
                decreases heads@.len() - h,
            {
                let ghost prev = ips@;
                match Comparator::matcher(&outputs[o], o, &heads[h], h) {
                    ComparatorResult::IntermediatePairing(p) => {
                        ips.push(p);
                        proof {
                            assert(pairs_of(ips@) =~= pairs_of(prev).push(pair_of(p)));
                            assert(pairs_rows(outputs@, heads@, o as nat) + pairs_row(outputs@, heads@, o as nat, (h + 1) as nat)
                                =~= (pairs_rows(outputs@, heads@, o as nat) + pairs_row(outputs@, heads@, o as nat, h as nat)).push((o, h)));
                            assert(ips@[prev.len() as int].output == o && ips@[prev.len() as int].head == h);
                            assert forall|a: int, b: int|
                                0 <= a < o && 0 <= b < heads@.len() && #[trigger] pairable(&outputs@[a], &heads@[b]) implies exists|i: int|
                                    0 <= i < ips@.len() && (#[trigger] ips@[i]).output == a && ips@[i].head == b by {
                                let i = choose|i: int| 0 <= i < prev.len() && (#[trigger] prev[i]).output == a && prev[i].head == b;
                                assert(ips@[i] == prev[i]);
                            }
                            assert forall|b: int|
                                0 <= b < h + 1 && #[trigger] pairable(&outputs@[o as int], &heads@[b]) implies exists|i: int|
                                    0 <= i < ips@.len() && (#[trigger] ips@[i]).output == o && ips@[i].head == b by {
                                if b < h {
                                    let i = choose|i: int| 0 <= i < prev.len() && (#[trigger] prev[i]).output == o && prev[i].head == b;
                                    assert(ips@[i] == prev[i]);
                                }
                            }
                        }
                    },
                    ComparatorResult::UnrelatedPairing(u) => {
                        ups.push(u);
                    },
                }
                h += 1;
            }
            proof {
                assert(pairs_rows(outputs@, heads@, (o + 1) as nat) == pairs_rows(outputs@, heads@, o as nat) + pairs_row(outputs@, heads@, o as nat, heads@.len()));
                assert((o + 1) * heads@.len() == o * heads@.len() + heads@.len()) by (nonlinear_arith);
            }
            o += 1;
        }
        proof {
            assert(pairs_rows(outputs@, heads@, 0) =~= Seq::<(usize, usize)>::empty());
        }
        let mut unpaired_outputs: Vec<usize> = Vec::new();
        let mut a: usize = 0;
        while a < outputs.len()
            invariant
                a <= outputs@.len(),
                unpaired_outputs@ == unpaired_upto(ips@, a as nat, true),
            decreases outputs@.len() - a,
        {
            let mut found = false;
            let mut i: usize = 0;
            while i < ips.len()
                invariant
                    i <= ips@.len(),
                    found <==> exists|j: int| 0 <= j < i && (#[trigger] ips@[j]).output == a,
                decreases ips@.len() - i,
            {
                if ips[i].output == a {
                    found = true;
                }
                i += 1;
            }
            if !found {
                unpaired_outputs.push(a);
            }
            a += 1;
        }
        let mut unpaired_heads: Vec<usize> = Vec::new();
        let mut b: usize = 0;
        while b < heads.len()
            invariant
                b <= heads@.len(),
                unpaired_heads@ == unpaired_upto(ips@, b as nat, false),
            decreases heads@.len() - b,
        {
            let mut found = false;
            let mut i: usize = 0;
            while i < ips.len()
                invariant
                    i <= ips@.len(),
                    found <==> exists|j: int| 0 <= j < i && (#[trigger] ips@[j]).head == b,
                decreases ips@.len() - i,
            {
                if ips[i].head == b {
                    found = true;
                }
                i += 1;
            }
            if !found {
                unpaired_heads.push(b);
            }
            b += 1;
        }
        ComparatorInfo {
            intermediate_pairings: ips,
            unpaired_heads,
            unpaired_outputs,
            unrelated_pairings: ups,
        }
    }
}

/// A resolved assignment of one output to one head, with the head's mode to
/// use where the output wants one.
#[derive(Clone, Copy, Debug, PartialEq, Eq, Structural)]
pub struct Pairing {
    pub output: usize,
    pub head: usize,
    pub head_id: WlGenericId,
    pub wl_mode: Option<WlMode>,
    pub wanted_refresh: Option<i32>,
    pub specificity: u64,
}

/// How far a pairing's mode is from the wanted refresh rate.
pub open spec fn pairing_deviation(p: Pairing) -> nat {
    match (p.wl_mode, p.wanted_refresh) {
        (Some(m), Some(r)) => {
            let w = if r < 0 { -(r as int) } else { r as int };
            let d = m.base.refresh as int - w;
            (if d < 0 { -d } else { d }) as nat
        },
        _ => 0,
    }
}

impl Pairing {
    /// How far the mode is from the wanted refresh rate, in millihertz; zero
    /// without a mode or a wanted rate. Lower is better.
    pub fn mode_deviation(&self) -> (r: u64)
        ensures
            r as nat == pairing_deviation(*self),
    {
        match (self.wl_mode, self.wanted_refresh) {
            (Some(m), Some(r)) => {
                let w: i64 = if r < 0 {
                    -(r as i64)
                } else {
                    r as i64
                };
                let d: i64 = m.base.refresh as i64 - w;
                if d < 0 {
                    (-d) as u64
                } else {
                    d as u64
                }
            },
            _ => 0,
        }
    }
}

/// Runs a maximum matching over a subset of pairings, treating outputs and
/// heads as the two sides.
pub struct HopcroftKarpMap;

/// The pairings at `idx` share no output and no head.
pub open spec fn disjoint_pairings(ips: Seq<IntermediatePairing>, idx: Seq<usize>) -> bool {
    forall|a: int, b: int|
        0 <= a < b < idx.len() ==> ips[idx[a] as int].output != ips[idx[b] as int].output
            && ips[idx[a] as int].head != ips[idx[b] as int].head
}

/// The edge of the matching graph that stands for a pairing.
pub open spec fn edge_of(p: IntermediatePairing) -> (isize, isize) {
    ((-(p.output as int) - 1) as isize, (p.head as int + 1) as isize)
}

impl HopcroftKarpMap {
    /// The pairings of `subset` that a maximum matching keeps, by their
    /// indices in `ips`.
    pub fn hkmap(ips: &Vec<IntermediatePairing>, subset: &Vec<usize>) -> (r: Vec<usize>)
        requires
            forall|i: int| 0 <= i < subset@.len() ==> (#[trigger] subset@[i]) < ips@.len(),
            forall|i: int|
                0 <= i < ips@.len() ==> (#[trigger] ips@[i]).output < isize::MAX && ips@[i].head < isize::MAX,
        ensures
            forall|i: int| 0 <= i < r@.len() ==> subset@.contains(#[trigger] r@[i]),
            disjoint_pairings(ips@, r@),
            disjoint_pairings(ips@, subset@) ==> r@.len() >= subset@.len(),
            forall|m: Seq<usize>|
                (forall|i: int| 0 <= i < m.len() ==> subset@.contains(#[trigger] m[i])) && #[trigger] disjoint_pairings(
                    ips@,
                    m,
                ) ==> m.len() <= r@.len(),
    {
        let mut edges: Vec<(isize, isize)> = Vec::new();
        let mut i: usize = 0;
        while i < subset.len()
            invariant
                i <= subset@.len(),
                edges@.len() == i,
                forall|i: int| 0 <= i < subset@.len() ==> (#[trigger] subset@[i]) < ips@.len(),
                forall|i: int|
                    0 <= i < ips@.len() ==> (#[trigger] ips@[i]).output < isize::MAX && ips@[i].head < isize::MAX,
                forall|j: int| 0 <= j < i ==> #[trigger] edges@[j] == edge_of(ips@[subset@[j] as int]),
            decreases subset@.len() - i,
        {
            let p = &ips[subset[i]];
            edges.push((-(p.output as isize) - 1, p.head as isize + 1));
            i += 1;
        }
        proof {
            if disjoint_pairings(ips@, subset@) {
                assert(is_matching(edges@)) by {
                    assert forall|a: int, b: int| 0 <= a < b < edges@.len() implies edges@[a].0 != edges@[b].0
                        && edges@[a].1 != edges@[b].1 by {
                        assert(edges@[a] == edge_of(ips@[subset@[a] as int]));
                        assert(edges@[b] == edge_of(ips@[subset@[b] as int]));
                    }
                }
                assert(crate::outside::edges_within(edges@, edges@)) by {
                    assert forall|a: int| 0 <= a < edges@.len() implies edges@.contains(#[trigger] edges@[a]) by {}
                }
            }
        }
        let matched = max_matching(&edges);
        let mut out: Vec<usize> = Vec::new();
        let mut k: usize = 0;
        while k < matched.len()
            invariant
                k <= matched@.len(),
                out@.len() == k,
                edges@.len() == subset@.len(),
                forall|j: int| 0 <= j < subset@.len() ==> #[trigger] edges@[j] == edge_of(ips@[subset@[j] as int]),
                forall|j: int| 0 <= j < subset@.len() ==> (#[trigger] subset@[j]) < ips@.len(),
                forall|j: int| 0 <= j < matched@.len() ==> edges@.contains(#[trigger] matched@[j]),
                forall|j: int| 0 <= j < k ==> subset@.contains(#[trigger] out@[j]) && edge_of(ips@[out@[j] as int]) == matched@[j],
            decreases matched@.len() - k,
        {
            let e = matched[k];
            let mut j: usize = 0;
            proof {
                assert(edges@.contains(matched@[k as int]));
            }
            while j < edges.len() && !(edges[j].0 == e.0 && edges[j].1 == e.1)
                invariant
                    j <= edges@.len(),
                    edges@.contains(e),
                    forall|q: int| 0 <= q < j ==> edges@[q] != e,
                decreases edges@.len() - j,
            {
                j += 1;
            }
            if j >= edges.len() {
                proof {
                    let q = choose|q: int| 0 <= q < edges@.len() && edges@[q] == e;
                    assert(false);
                }
            }
            proof {
                assert(subset@.contains(subset@[j as int]));
            }
            out.push(subset[j]);
            k += 1;
        }
        proof {
            assert forall|a: int, b: int| 0 <= a < b < out@.len() implies ips@[out@[a] as int].output
                != ips@[out@[b] as int].output && ips@[out@[a] as int].head != ips@[out@[b] as int].head by {
                assert(matched@[a].0 != matched@[b].0 && matched@[a].1 != matched@[b].1);
            }
            assert forall|m: Seq<usize>|
                (forall|i: int| 0 <= i < m.len() ==> subset@.contains(#[trigger] m[i])) && #[trigger] disjoint_pairings(
                    ips@,
                    m,
                ) implies m.len() <= out@.len() by {
                let e = m.map_values(|x: usize| edge_of(ips@[x as int]));
                assert(is_matching(e)) by {
                    assert forall|a: int, b: int| 0 <= a < b < e.len() implies e[a].0 != e[b].0 && e[a].1 != e[b].1 by {
                        assert(ips@[m[a] as int].output != ips@[m[b] as int].output);
                    }
                }
                assert(crate::outside::edges_within(e, edges@)) by {
                    assert forall|a: int| 0 <= a < e.len() implies edges@.contains(#[trigger] e[a]) by {
                        assert(subset@.contains(m[a]));
                        let j = choose|j: int| 0 <= j < subset@.len() && subset@[j] == m[a];
                        assert(edges@[j] == edge_of(ips@[subset@[j] as int]));
                    }
                }
            }
        }
        out
    }
}

/// A variant's pairings assign each output of the profile one head, with
/// heads and outputs pairwise distinct and every pairing pairable.
pub open spec fn pairings_valid(ps: Seq<Pairing>, outputs: Seq<Output>, heads: Seq<WlHead>) -> bool {
    &&& ps.len() == heads.len()
    &&& forall|a: int, b: int|
        0 <= a < b < ps.len() ==> ps[a].output != ps[b].output && ps[a].head != ps[b].head
    &&& forall|i: int|
        0 <= i < ps.len() ==> {
            let p = #[trigger] ps[i];
            &&& p.output < outputs.len()
            &&& p.head < heads.len()
            &&& p.head_id == heads[p.head as int].id
            &&& pairable(&outputs[p.output as int], &heads[p.head as int])
            &&& p.specificity as nat == search_specificity(&outputs[p.output as int].search_pattern, head_texts(&heads[p.head as int]))
            &&& p.wanted_refresh == match outputs[p.output as int].mode {
                Some(m) => m.refresh_spec(),
                None => None,
            }
            &&& match p.wl_mode {
                Some(m) => wants_head_mode(&outputs[p.output as int]) && heads[p.head as int].modes@.contains(m),
                None => !wants_head_mode(&outputs[p.output as int]),
            }
        }
}

/// A complete, concrete assignment of a profile's outputs to heads and modes.
pub struct ValidVariant {
    pub profile: usize,
    pub pairings: Vec<Pairing>,
    pub state: VariantState,
    pub subset: usize,
    pub index: usize,
}

/// Why a profile yields no variant.
#[derive(Clone, Copy, Debug, PartialEq, Eq, Structural)]
pub enum MatchPipelineError {
    /// The profile has another number of outputs than there are heads.
    DifferentInputLength,
    /// Fewer pairings than heads, or more than their square.
    NotEnoughPairings,
    /// No subset of pairings assigns every output a head.
    LowCardinality,
}

/// What matching a profile against the heads found.
pub struct MatchReport {
    pub profile: usize,
    pub intermediate_pairings: Vec<IntermediatePairing>,
    pub unpaired_heads: Vec<usize>,
    pub unpaired_outputs: Vec<usize>,
    pub unrelated_pairings: Vec<UnrelatedPairing>,
    /// The pairings a maximum matching kept from each subset that assigns
    /// every output a head, as indices into the intermediate pairings.
    pub valid_subsets: Vec<Vec<usize>>,
    /// Subsets whose maximum matching leaves some output without a head, as
    /// indices into the intermediate pairings.
    pub invalid_subsets: Vec<Vec<usize>>,
    pub valid_variants: Vec<ValidVariant>,
}

/// The variants of a report all belong to `pi`, are untested and valid.
pub open spec fn variants_valid(vs: Seq<ValidVariant>, pi: usize, outputs: Seq<Output>, heads: Seq<WlHead>) -> bool {
    forall|i: int|
        0 <= i < vs.len() ==> {
            &&& (#[trigger] vs[i]).profile == pi
            &&& vs[i].state == VariantState::Untested
            &&& pairings_valid(vs[i].pairings@, outputs, heads)
        }
}

/// Every choice in `l` picks one of the pairing's modes, or is zero where
/// it has none.
pub open spec fn mode_choices_ok(l: Seq<usize>, p: IntermediatePairing) -> bool {
    forall|x: usize|
        #[trigger] l.contains(x) ==> match p.modes {
            Some(ms) => x < ms@.len(),
            None => x == 0,
        }
}

/// How many ways there are to pick a mode for each of the first `n`
/// pairings at `subset`: one way for a pairing without modes.
pub open spec fn choice_count(ips: Seq<IntermediatePairing>, subset: Seq<usize>, n: nat) -> nat
    decreases n,
{
    if n == 0 {
        1
    } else {
        choice_count(ips, subset, (n - 1) as nat) * match ips[subset[n - 1] as int].modes {
            Some(ms) => ms@.len(),
            None => 1,
        }
    }
}

/// How many variants the subsets expand to.
pub open spec fn variants_total(ips: Seq<IntermediatePairing>, subsets: Seq<Vec<usize>>, n: nat) -> nat
    decreases n,
{
    if n == 0 {
        0
    } else {
        variants_total(ips, subsets, (n - 1) as nat) + choice_count(ips, subsets[n - 1]@, subsets[n - 1]@.len())
    }
}

proof fn lemma_product_choices(lv: Seq<Vec<usize>>, ips: Seq<IntermediatePairing>, subset: Seq<usize>, n: nat)
    requires
        n <= lv.len(),
        lv.len() == subset.len(),
        forall|j: int| 0 <= j < lv.len() ==> (#[trigger] lv[j])@.len() == match ips[subset[j] as int].modes {
            Some(ms) => ms@.len(),
            None => 1,
        },
    ensures
        product_len(lv, n) == choice_count(ips, subset, n),
    decreases n,
{
    if n > 0 {
        lemma_product_choices(lv, ips, subset, (n - 1) as nat);
        assert(lv[n - 1]@.len() == match ips[subset[n - 1] as int].modes {
            Some(ms) => ms@.len(),
            None => 1,
        });
    }
}

/// Expands the pairings at `subset` into one variant per choice of modes.
fn expand_subset(
    ips: &Vec<IntermediatePairing>,
    subset: &Vec<usize>,
    outputs: &Vec<Output>,
    heads: &Vec<WlHead>,
    profile: usize,
    subset_index: usize,
    out: &mut Vec<ValidVariant>,
)
    requires
        pairings_sound(ips@, outputs@, heads@),
        subset@.len() == heads@.len(),
        forall|i: int| 0 <= i < subset@.len() ==> (#[trigger] subset@[i]) < ips@.len(),
        disjoint_pairings(ips@, subset@),
        variants_valid(old(out)@, profile, outputs@, heads@),
    ensures
        variants_valid(final(out)@, profile, outputs@, heads@),
        final(out)@.len() > old(out)@.len(),
        final(out)@.len() == old(out)@.len() + choice_count(ips@, subset@, subset@.len()),
{
    let mut lists: Vec<Vec<usize>> = Vec::new();
    let mut i: usize = 0;
    while i < subset.len()
        invariant
            i <= subset@.len(),
            lists@.len() == i,
            forall|i: int| 0 <= i < subset@.len() ==> (#[trigger] subset@[i]) < ips@.len(),
            forall|j: int| 0 <= j < i ==> mode_choices_ok((#[trigger] lists@[j])@, ips@[subset@[j] as int]),
            forall|j: int| 0 <= j < i ==> (#[trigger] lists@[j])@.contains(0usize),
            forall|j: int| 0 <= j < i ==> (#[trigger] lists@[j])@.len() == match ips@[subset@[j] as int].modes {
                Some(ms) => ms@.len(),
                None => 1,
            },
            pairings_sound(ips@, outputs@, heads@),
        decreases subset@.len() - i,
    {
        let n = match &ips[subset[i]].modes {
            Some(ms) => ms.len(),
            None => 1,
        };
        proof {
            assert(n >= 1) by {
                let p = ips@[subset@[i as int] as int];
                assert(pairing_modes_ok(p.modes, &outputs@[p.output as int], &heads@[p.head as int]));
            }
        }
        let mut l: Vec<usize> = Vec::new();
        let mut q: usize = 0;
        while q < n
            invariant
                q <= n,
                l@.len() == q,
                q > 0 ==> l@.contains(0usize),
                forall|x: usize| #[trigger] l@.contains(x) ==> x < q,
            decreases n - q,
        {
            let ghost prev = l@;
            l.push(q);
            proof {
                if q == 0 {
                    assert(l@[0] == 0usize);
                } else {
                    let z = choose|z: int| 0 <= z < prev.len() && prev[z] == 0usize;
                    assert(l@[z] == 0usize);
                }
                assert forall|x: usize| #[trigger] l@.contains(x) implies x < q + 1 by {
                    if x != q {
                        let z = choose|z: int| 0 <= z < l@.len() && l@[z] == x;
                        assert(prev[z] == x);
                        assert(prev.contains(x));
                    }
                }
            }
            q += 1;
        }
        proof {
            assert(mode_choices_ok(l@, ips@[subset@[i as int] as int]));
        }
        let ghost before = lists@;
        lists.push(l);
        proof {
            assert forall|j: int| 0 <= j < i + 1 implies (#[trigger] lists@[j])@.contains(0usize) && lists@[j]@.len()
                == match ips@[subset@[j] as int].modes {
                Some(ms) => ms@.len(),
                None => 1,
            } by {
                if j < i {
                    assert(lists@[j] == before[j]);
                }
            }
        }
        i += 1;
    }
    let ghost lv = lists@;
    let tuples = cartesian_product(lists);
    proof {
        lemma_product_choices(lv, ips@, subset@, lv.len());
        let zeros = Seq::new(lv.len(), |j: int| 0usize);
        assert(in_product(zeros, lv)) by {
            assert forall|j: int| 0 <= j < lv.len() implies lv[j]@.contains(#[trigger] zeros[j]) by {
                assert(lv[j]@.contains(0usize));
            }
        }
        let w = choose|w: int| 0 <= w < tuples@.len() && (#[trigger] tuples@[w])@ == zeros;
    }
    let mut t: usize = 0;
    while t < tuples.len()
        invariant
            t <= tuples@.len(),
            lv.len() == subset@.len(),
            pairings_sound(ips@, outputs@, heads@),
            subset@.len() == heads@.len(),
            forall|i: int| 0 <= i < subset@.len() ==> (#[trigger] subset@[i]) < ips@.len(),
            disjoint_pairings(ips@, subset@),
            forall|i: int| 0 <= i < tuples@.len() ==> in_product((#[trigger] tuples@[i])@, lv),
            forall|j: int| 0 <= j < lv.len() ==> mode_choices_ok((#[trigger] lv[j])@, ips@[subset@[j] as int]),
            variants_valid(out@, profile, outputs@, heads@),
            out@.len() == old(out)@.len() + t,
            tuples@.len() > 0,
        decreases tuples@.len() - t,
    {
        let tuple = &tuples[t];
        proof {
            assert(in_product(tuple@, lv));
        }
        let mut ps: Vec<Pairing> = Vec::new();
        let mut j: usize = 0;
        while j < subset.len()
            invariant
                j <= subset@.len(),
                ps@.len() == j,
                tuple@.len() == lv.len() == subset@.len() == heads@.len(),
                in_product(tuple@, lv),
                pairings_sound(ips@, outputs@, heads@),
                forall|i: int| 0 <= i < subset@.len() ==> (#[trigger] subset@[i]) < ips@.len(),
                forall|q: int| 0 <= q < lv.len() ==> mode_choices_ok((#[trigger] lv[q])@, ips@[subset@[q] as int]),
                forall|q: int|
                    0 <= q < j ==> {
                        let p = #[trigger] ps@[q];
                        &&& p.output == ips@[subset@[q] as int].output
                        &&& p.head == ips@[subset@[q] as int].head
                        &&& p.head_id == heads@[p.head as int].id
                        &&& p.specificity == ips@[subset@[q] as int].specificity
                        &&& p.wanted_refresh == match outputs@[p.output as int].mode {
                            Some(m) => m.refresh_spec(),
                            None => None,
                        }
                        &&& match p.wl_mode {
                            Some(m) => wants_head_mode(&outputs@[p.output as int]) && heads@[p.head as int].modes@.contains(m),
                            None => !wants_head_mode(&outputs@[p.output as int]),
                        }
                    },
            decreases subset@.len() - j,
        {
            let ip = &ips[subset[j]];
            proof {
                assert(lv[j as int]@.contains(tuple@[j as int]));
                assert(mode_choices_ok(lv[j as int]@, ips@[subset@[j as int] as int]));
                assert(ips@[subset@[j as int] as int] == *ip);
            }
            let wl_mode = match &ip.modes {
                Some(ms) => {
                    let m = ms[tuple[j]];
                    proof {
                        assert(heads@[ip.head as int].modes@.contains(ms@[tuple@[j as int] as int]));
                    }
                    Some(m)
                },
                None => None,
            };
            let wanted_refresh = match outputs[ip.output].mode {
                Some(m) => m.refresh(),
                None => None,
            };
            ps.push(
                Pairing {
                    output: ip.output,
                    head: ip.head,
                    head_id: heads[ip.head].id,
                    wl_mode,
                    wanted_refresh,
                    specificity: ip.specificity,
                },
            );
            j += 1;
        }
        proof {
            assert(pairings_valid(ps@, outputs@, heads@)) by {
                assert forall|a: int, b: int| 0 <= a < b < ps@.len() implies ps@[a].output != ps@[b].output
                    && ps@[a].head != ps@[b].head by {
                    assert(ps@[a].output == ips@[subset@[a] as int].output);
                    assert(ps@[b].output == ips@[subset@[b] as int].output);
                }
                assert forall|i: int| 0 <= i < ps@.len() implies pairable(
                    &outputs@[(#[trigger] ps@[i]).output as int],
                    &heads@[ps@[i].head as int],
                ) && ps@[i].specificity as nat == search_specificity(
                    &outputs@[ps@[i].output as int].search_pattern,
                    head_texts(&heads@[ps@[i].head as int]),
                ) by {
                    let k = subset@[i] as int;
                    assert(pairable(&outputs@[ips@[k].output as int], &heads@[ips@[k].head as int]));
                }
            }
        }
        let ghost prev = out@;
        out.push(ValidVariant {
            profile,
            pairings: ps,
            state: VariantState::Untested,
            subset: subset_index,
            index: t,
        });
        proof {
            assert forall|i: int| 0 <= i < out@.len() implies (#[trigger] out@[i]).profile == profile
                && out@[i].state == VariantState::Untested && pairings_valid(out@[i].pairings@, outputs@, heads@) by {
                if i < prev.len() {
                    assert(out@[i] == prev[i]);
                }
            }
        }
        t += 1;
    }
}

proof fn lemma_distinct_within(r: Seq<usize>, c: Seq<usize>)
    requires
        r.no_duplicates(),
        forall|i: int| 0 <= i < r.len() ==> c.contains(#[trigger] r[i]),
    ensures
        r.len() <= c.len(),
        r.len() == c.len() && c.no_duplicates() ==> forall|j: int| 0 <= j < c.len() ==> r.contains(#[trigger] c[j]),
{
    broadcast use vstd::seq_lib::seq_to_set_is_finite;

    r.unique_seq_to_set();
    c.lemma_cardinality_of_set();
    assert(r.to_set().subset_of(c.to_set())) by {
        assert forall|x: usize| r.to_set().contains(x) implies c.to_set().contains(x) by {
            let i = choose|i: int| 0 <= i < r.len() && r[i] == x;
            assert(c.contains(r[i]));
        }
    }
    vstd::set_lib::lemma_len_subset(r.to_set(), c.to_set());
    if r.len() == c.len() && c.no_duplicates() {
        c.unique_seq_to_set();
        vstd::set_lib::lemma_subset_equality(r.to_set(), c.to_set());
        assert forall|j: int| 0 <= j < c.len() implies r.contains(#[trigger] c[j]) by {
            assert(c.to_set().contains(c[j]));
            assert(r.to_set().contains(c[j]));
        }
    }
}

proof fn lemma_disjoint_pairs(ips: Seq<IntermediatePairing>, idx: Seq<usize>)
    requires
        forall|i: int| 0 <= i < idx.len() ==> (#[trigger] idx[i]) < ips.len(),
    ensures
        disjoint_pairings(ips, idx) <==> disjoint_pairs(pairs_of(ips), idx),
{
    let ps = pairs_of(ips);
    assert forall|i: int| 0 <= i < idx.len() implies #[trigger] ps[idx[i] as int] == pair_of(ips[idx[i] as int]) by {}
}

/// A set of pairings of the subset's size, all taken from the subset and
/// pairwise disjoint, makes the subset disjoint too.
proof fn lemma_full_matching_covers(ips: Seq<IntermediatePairing>, m: Seq<usize>, c: Seq<usize>)
    requires
        forall|i: int| 0 <= i < m.len() ==> c.contains(#[trigger] m[i]),
        forall|i: int| 0 <= i < c.len() ==> (#[trigger] c[i]) < ips.len(),
        forall|a: int, b: int| 0 <= a < b < c.len() ==> c[a] < c[b],
        disjoint_pairings(ips, m),
        m.len() == c.len(),
    ensures
        disjoint_pairings(ips, c),
{
    assert(m.no_duplicates()) by {
        assert forall|a: int, b: int| 0 <= a < m.len() && 0 <= b < m.len() && a != b implies m[a] != m[b] by {
            if a < b {
                assert(ips[m[a] as int].output != ips[m[b] as int].output);
            } else {
                assert(ips[m[b] as int].output != ips[m[a] as int].output);
            }
        }
    }
    assert(c.no_duplicates()) by {
        assert forall|a: int, b: int| 0 <= a < c.len() && 0 <= b < c.len() && a != b implies c[a] != c[b] by {
            if a < b {
                assert(c[a] < c[b]);
            } else {
                assert(c[b] < c[a]);
            }
        }
    }
    lemma_distinct_within(m, c);
    assert forall|a: int, b: int| 0 <= a < b < c.len() implies ips[c[a] as int].output != ips[c[b] as int].output
        && ips[c[a] as int].head != ips[c[b] as int].head by {
        assert(m.contains(c[a]));
        assert(m.contains(c[b]));
        let i = choose|i: int| 0 <= i < m.len() && m[i] == c[a];
        let j = choose|j: int| 0 <= j < m.len() && m[j] == c[b];
        assert(c[a] < c[b]);
        if i < j {
            assert(ips[m[i] as int].output != ips[m[j] as int].output);
        } else {
            assert(ips[m[j] as int].output != ips[m[i] as int].output);
        }
    }
}

proof fn lemma_increasing_same_set(a: Seq<usize>, b: Seq<usize>)
    requires
        forall|i: int, j: int| 0 <= i < j < a.len() ==> a[i] < a[j],
        forall|i: int, j: int| 0 <= i < j < b.len() ==> b[i] < b[j],
        a.to_set() == b.to_set(),
    ensures
        a == b,
    decreases a.len() + b.len(),
{
    if a.len() == 0 || b.len() == 0 {
        if a.len() > 0 {
            assert(a.to_set().contains(a[0]));
            assert(b.to_set().contains(a[0]));
            assert(b.contains(a[0]));
        }
        if b.len() > 0 {
            assert(b.to_set().contains(b[0]));
            assert(a.to_set().contains(b[0]));
            assert(a.contains(b[0]));
        }
        assert(a =~= b);
    } else {
        assert(a.to_set().contains(a[0]) && b.to_set().contains(b[0]));
        assert(b.contains(a[0]) && a.contains(b[0]));
        let i = choose|i: int| 0 <= i < b.len() && b[i] == a[0];
        let j = choose|j: int| 0 <= j < a.len() && a[j] == b[0];
        assert(a[0] == b[0]) by {
            if a[0] != b[0] {
                assert(i > 0 && j > 0);
                assert(b[0] < b[i] && a[0] < a[j]);
            }
        }
        let (a1, b1) = (a.drop_first(), b.drop_first());
        assert(a1.to_set() == b1.to_set()) by {
            assert forall|x: usize| a1.to_set().contains(x) <==> b1.to_set().contains(x) by {
                if a1.contains(x) {
                    let p = choose|p: int| 0 <= p < a1.len() && a1[p] == x;
                    assert(a[p + 1] == x && a[0] < a[p + 1]);
                    assert(a.to_set().contains(x));
                    let q = choose|q: int| 0 <= q < b.len() && b[q] == x;
                    assert(q > 0);
                    assert(b1[q - 1] == x);
                }
                if b1.contains(x) {
                    let p = choose|p: int| 0 <= p < b1.len() && b1[p] == x;
                    assert(b[p + 1] == x && b[0] < b[p + 1]);
                    assert(b.to_set().contains(x));
                    let q = choose|q: int| 0 <= q < a.len() && a[q] == x;
                    assert(q > 0);
                    assert(a1[q - 1] == x);
                }
            }
            assert(a1.to_set() =~= b1.to_set());
        }
        lemma_increasing_same_set(a1, b1);
        assert(a.len() == b.len());
        assert forall|i: int| 0 <= i < a.len() implies a[i] == b[i] by {
            if i > 0 {
                assert(a[i] == a1[i - 1] && b[i] == b1[i - 1]);
            }
        }
        assert(a =~= b);
    }
}

/// Every index of `c` is in `v`.
pub open spec fn covers(v: Seq<usize>, c: Seq<usize>) -> bool {
    forall|j: int| 0 <= j < c.len() ==> v.contains(#[trigger] c[j])
}

/// Matches a profile against heads.
pub struct ProfileMatcher;

impl ProfileMatcher {
    /// Pairs the profile's outputs with the heads, keeps the subsets of
    /// pairings that assign every output a head, and expands them into
    /// variants. Fails where the numbers of outputs and heads differ, where
    /// the pairings number fewer than the heads or more than their square, and
    /// where no subset assigns every output. Fewer than 2^31 - 1 heads are
    /// required: outputs and heads become negative and positive `isize`
    /// vertices of the matching graph, and `isize` holds that many on every
    /// target (a vector of heads cannot come near it on 32-bit targets).
    pub fn create_report(profile: &Profile, profile_index: usize, heads: &Vec<WlHead>) -> (r: Result<MatchReport, MatchPipelineError>)
        requires
            heads@.len() < 0x7fff_ffff,
        ensures
            profile.outputs@.len() != heads@.len() ==> r == Err::<MatchReport, MatchPipelineError>(
                MatchPipelineError::DifferentInputLength,
            ),
            ({
                let ps = pairable_pairs(profile.outputs@, heads@);
                let n = heads@.len();
                &&& profile.outputs@.len() == n && (ps.len() < n || ps.len() > n * n) ==> r
                    == Err::<MatchReport, MatchPipelineError>(MatchPipelineError::NotEnoughPairings)
                &&& profile.outputs@.len() == n && n <= ps.len() <= n * n && !assignable(ps, n) ==> r
                    == Err::<MatchReport, MatchPipelineError>(MatchPipelineError::LowCardinality)
                &&& profile.outputs@.len() == n && n <= ps.len() <= n * n && assignable(ps, n) ==> r is Ok
            }),
            r matches Ok(rep) ==> {
                &&& rep.profile == profile_index
                &&& variants_valid(rep.valid_variants@, profile_index, profile.outputs@, heads@)
                &&& rep.valid_variants@.len() > 0
                &&& pairs_of(rep.intermediate_pairings@) == pairable_pairs(profile.outputs@, heads@)
                &&& rep.intermediate_pairings@.len() + rep.unrelated_pairings@.len() == heads@.len() * heads@.len()
                &&& rep.unpaired_outputs@ == unpaired_upto(rep.intermediate_pairings@, heads@.len(), true)
                &&& rep.unpaired_heads@ == unpaired_upto(rep.intermediate_pairings@, heads@.len(), false)
                &&& rep.valid_variants@.len() == variants_total(
                    rep.intermediate_pairings@,
                    rep.valid_subsets@,
                    rep.valid_subsets@.len(),
                )
                &&& forall|w: int|
                    0 <= w < rep.valid_subsets@.len() ==> {
                        &&& (#[trigger] rep.valid_subsets@[w])@.len() == heads@.len()
                        &&& forall|i: int| 0 <= i < rep.valid_subsets@[w]@.len() ==> (#[trigger] rep.valid_subsets@[w]@[i])
                            < rep.intermediate_pairings@.len()
                        &&& disjoint_pairings(rep.intermediate_pairings@, rep.valid_subsets@[w]@)
                    }
                &&& forall|w: int| 0 <= w < rep.invalid_subsets@.len() ==> (#[trigger] rep.invalid_subsets@[w])@.len() < heads@.len()
                &&& forall|w1: int, w2: int|
                    0 <= w1 < w2 < rep.valid_subsets@.len() ==> (#[trigger] rep.valid_subsets@[w1])@.to_set()
                        != (#[trigger] rep.valid_subsets@[w2])@.to_set()
                &&& forall|c: Seq<usize>|
                    #[trigger] is_combination(c, rep.intermediate_pairings@.len(), heads@.len()) && disjoint_pairings(
                        rep.intermediate_pairings@,
                        c,
                    ) ==> exists|w: int| 0 <= w < rep.valid_subsets@.len() && covers(#[trigger] rep.valid_subsets@[w]@, c)
            },
    {
        let n = heads.len();
        if profile.outputs.len() != n {
            return Err(MatchPipelineError::DifferentInputLength);
        }
        let info = Comparator::collect_intermediate_pairings(&profile.outputs, heads);
        let ips = info.intermediate_pairings;
        let ghost ps = pairable_pairs(profile.outputs@, heads@);
        let k = ips.len();
        proof {
            assert(ps.len() == k);
            assert((n as int) * (n as int) <= 0x7fff_ffff * 0x7fff_ffff) by (nonlinear_arith)
                requires
                    n < 0x7fff_ffff,
            ;
        }
        if k < n || (k as u64) > (n as u64) * (n as u64) {
            return Err(MatchPipelineError::NotEnoughPairings);
        }
        let combos = index_combinations(k, n);
        let mut valid: Vec<Vec<usize>> = Vec::new();
        let mut invalid: Vec<Vec<usize>> = Vec::new();
        let mut c: usize = 0;
        let ghost mut src: Seq<int> = Seq::empty();
        while c < combos.len()
            invariant
                c <= combos@.len(),
                k == ips@.len(),
                n == heads@.len() < 0x7fff_ffff,
                pairings_sound(ips@, profile.outputs@, heads@),
                pairs_of(ips@) == ps,
                profile.outputs@.len() == n,
                forall|i: int| 0 <= i < combos@.len() ==> is_combination((#[trigger] combos@[i])@, k as nat, n as nat),
                forall|v: int|
                    0 <= v < valid@.len() ==> {
                        &&& (#[trigger] valid@[v])@.len() == n
                        &&& forall|i: int| 0 <= i < valid@[v]@.len() ==> (#[trigger] valid@[v]@[i]) < k
                        &&& disjoint_pairings(ips@, valid@[v]@)
                    },
                valid@.len() > 0 ==> assignable(ps, n as nat),
                forall|i: int| 0 <= i < c && disjoint_pairings(ips@, (#[trigger] combos@[i])@) ==> valid@.len() > 0,
                forall|i: int|
                    0 <= i < c && disjoint_pairings(ips@, (#[trigger] combos@[i])@) ==> exists|w: int|
                        0 <= w < valid@.len() && covers(#[trigger] valid@[w]@, combos@[i]@),
                forall|w: int| 0 <= w < invalid@.len() ==> (#[trigger] invalid@[w])@.len() < n,
                src.len() == valid@.len(),
                forall|w: int| 0 <= w < src.len() ==> 0 <= #[trigger] src[w] < c,
                forall|w: int| 0 <= w < src.len() ==> (#[trigger] valid@[w])@.to_set() == combos@[src[w]]@.to_set(),
                forall|w1: int, w2: int| 0 <= w1 < w2 < src.len() ==> #[trigger] src[w1] < #[trigger] src[w2],
            decreases combos@.len() - c,
        {
            let subset = &combos[c];
            proof {
                assert(is_combination(subset@, k as nat, n as nat));
                assert forall|i: int| 0 <= i < ips@.len() implies (#[trigger] ips@[i]).output < isize::MAX
                    && ips@[i].head < isize::MAX by {
                    let p = ips@[i];
                    assert(p.output < profile.outputs@.len() && p.head < heads@.len());
                }
            }
            let matched = HopcroftKarpMap::hkmap(&ips, subset);
            proof {
                assert forall|i: int| 0 <= i < matched@.len() implies (#[trigger] matched@[i]) < k by {
                    assert(subset@.contains(matched@[i]));
                }
                assert(matched@.no_duplicates()) by {
                    assert forall|a: int, b: int| 0 <= a < matched@.len() && 0 <= b < matched@.len() && a != b implies matched@[a] != matched@[b] by {
                        if a < b {
                            assert(ips@[matched@[a] as int].output != ips@[matched@[b] as int].output);
                        } else {
                            assert(ips@[matched@[b] as int].output != ips@[matched@[a] as int].output);
                        }
                    }
                }
                lemma_distinct_within(matched@, subset@);
            }
            if matched.len() == n {
                proof {
                    lemma_full_matching_covers(ips@, matched@, subset@);
                    lemma_disjoint_pairs(ips@, subset@);
                    assert(is_combination(subset@, ps.len(), n as nat) && disjoint_pairs(ps, subset@));
                    assert(subset@.no_duplicates()) by {
                        assert forall|a: int, b: int| 0 <= a < subset@.len() && 0 <= b < subset@.len() && a != b implies subset@[a]
                            != subset@[b] by {
                            if a < b {
                                assert(subset@[a] < subset@[b]);
                            } else {
                                assert(subset@[b] < subset@[a]);
                            }
                        }
                    }
                    lemma_distinct_within(matched@, subset@);
                }
                let ghost vprev = valid@;
                proof {
                    assert(matched@.to_set() =~= subset@.to_set()) by {
                        assert forall|x: usize| matched@.to_set().contains(x) <==> subset@.to_set().contains(x) by {
                            if subset@.contains(x) {
                                let j = choose|j: int| 0 <= j < subset@.len() && subset@[j] == x;
                                assert(matched@.contains(subset@[j]));
                            }
                        }
                    }
                    src = src.push(c as int);
                }
                valid.push(matched);
                proof {
                    assert forall|i: int|
                        0 <= i < c + 1 && disjoint_pairings(ips@, (#[trigger] combos@[i])@) implies exists|w: int|
                            0 <= w < valid@.len() && covers(#[trigger] valid@[w]@, combos@[i]@) by {
                        if i < c {
                            let w = choose|w: int| 0 <= w < vprev.len() && covers(#[trigger] vprev[w]@, combos@[i]@);
                            assert(valid@[w] == vprev[w]);
                        } else {
                            assert(valid@[vprev.len() as int] == matched);
                            assert(subset@ == combos@[c as int]@);
                            assert(covers(valid@[vprev.len() as int]@, combos@[i]@)) by {
                                assert forall|j: int| 0 <= j < combos@[i]@.len() implies valid@[vprev.len() as int]@.contains(
                                    #[trigger] combos@[i]@[j],
                                ) by {
                                    assert(matched@.contains(subset@[j]));
                                }
                            }
                        }
                    }
                }
            } else {
                proof {
                    if disjoint_pairings(ips@, subset@) {
                        assert(matched@.len() >= n);
                        assert(false);
                    }
                    assert(subset@ == combos@[c as int]@);
                    assert(!disjoint_pairings(ips@, combos@[c as int]@));
                }
                let ghost iprev = invalid@;
                invalid.push(matched);
                proof {
                    assert forall|w: int| 0 <= w < invalid@.len() implies (#[trigger] invalid@[w])@.len() < n by {
                        if w < iprev.len() {
                            assert(invalid@[w] == iprev[w]);
                        }
                    }
                }
            }
            c += 1;
        }
        proof {
            assert forall|w1: int, w2: int|
                0 <= w1 < w2 < valid@.len() implies (#[trigger] valid@[w1])@.to_set() != (#[trigger] valid@[w2])@.to_set() by {
                assert(src[w1] < src[w2]);
                if valid@[w1]@.to_set() == valid@[w2]@.to_set() {
                    let (c1, c2) = (combos@[src[w1]]@, combos@[src[w2]]@);
                    assert(is_combination(c1, k as nat, n as nat) && is_combination(c2, k as nat, n as nat));
                    lemma_increasing_same_set(c1, c2);
                }
            }
        }
        if valid.len() == 0 {
            proof {
                if assignable(ps, n as nat) {
                    let w = choose|w: Seq<usize>| #[trigger] is_combination(w, ps.len(), n as nat) && disjoint_pairs(ps, w);
                    let i = choose|i: int| 0 <= i < combos@.len() && (#[trigger] combos@[i])@ == w;
                    lemma_disjoint_pairs(ips@, w);
                    assert(disjoint_pairings(ips@, combos@[i]@));
                }
            }
            return Err(MatchPipelineError::LowCardinality);
        }
        let mut variants: Vec<ValidVariant> = Vec::new();
        let mut v: usize = 0;
        while v < valid.len()
            invariant
                v <= valid@.len(),
                valid@.len() > 0,
                v > 0 ==> variants@.len() > 0,
                k == ips@.len(),
                n == heads@.len(),
                pairings_sound(ips@, profile.outputs@, heads@),
                forall|w: int|
                    0 <= w < valid@.len() ==> {
                        &&& (#[trigger] valid@[w])@.len() == n
                        &&& forall|i: int| 0 <= i < valid@[w]@.len() ==> (#[trigger] valid@[w]@[i]) < k
                        &&& disjoint_pairings(ips@, valid@[w]@)
                    },
                variants_valid(variants@, profile_index, profile.outputs@, heads@),
                variants@.len() == variants_total(ips@, valid@, v as nat),
            decreases valid@.len() - v,
        {
            expand_subset(&ips, &valid[v], &profile.outputs, heads, profile_index, v, &mut variants);
            v += 1;
        }
        Ok(MatchReport {
            profile: profile_index,
            intermediate_pairings: ips,
            unpaired_heads: info.unpaired_heads,
            unpaired_outputs: info.unpaired_outputs,
            unrelated_pairings: info.unrelated_pairings,
            valid_subsets: valid,
            invalid_subsets: invalid,
            valid_variants: variants,
        })
    }
}


/// The sum of the pairings' specificities.
pub open spec fn specificity_total(ps: Seq<Pairing>, n: nat) -> nat
    decreases n,
{
    if n == 0 {
        0
    } else {
        specificity_total(ps, (n - 1) as nat) + ps[n - 1].specificity as nat
    }
}

/// The sum of the pairings' mode deviations.
pub open spec fn deviation_total(ps: Seq<Pairing>, n: nat) -> nat
    decreases n,
{
    if n == 0 {
        0
    } else {
        deviation_total(ps, (n - 1) as nat) + pairing_deviation(ps[n - 1])
    }
}

/// The mean specificity of a variant's pairings, zero without pairings.
pub open spec fn variant_specificity(ps: Seq<Pairing>) -> nat {
    if ps.len() == 0 {
        0
    } else {
        specificity_total(ps, ps.len()) / ps.len()
    }
}

/// The total mode deviation of a variant's pairings, saturated.
pub open spec fn variant_deviation(ps: Seq<Pairing>) -> nat {
    let d = deviation_total(ps, ps.len());
    if d > u64::MAX {
        u64::MAX as nat
    } else {
        d
    }
}

proof fn lemma_specificity_total_bound(ps: Seq<Pairing>, n: nat)
    requires
        n <= ps.len(),
    ensures
        specificity_total(ps, n) <= n * (u64::MAX as nat),
    decreases n,
{
    if n > 0 {
        lemma_specificity_total_bound(ps, (n - 1) as nat);
        assert((n - 1) * (u64::MAX as nat) + u64::MAX as nat == n * (u64::MAX as nat)) by (nonlinear_arith);
    }
}

impl ValidVariant {
    /// The mean specificity of the pairings; zero without pairings.
    pub fn specificity(&self) -> (r: u64)
        ensures
            r as nat == variant_specificity(self.pairings@),
    {
        let n = self.pairings.len();
        if n == 0 {
            return 0;
        }
        let mut sum: u128 = 0;
        let mut i: usize = 0;
        while i < n
            invariant
                n == self.pairings@.len(),
                i <= n,
                sum as nat == specificity_total(self.pairings@, i as nat),
            decreases n - i,
        {
            proof {
                lemma_specificity_total_bound(self.pairings@, i as nat);
                assert((i as nat) * (u64::MAX as nat) < 0x1_0000_0000_0000_0000 * 0x1_0000_0000_0000_0000 - 0x1_0000_0000_0000_0000) by (nonlinear_arith)
                    requires
                        i < 0x1_0000_0000_0000_0000,
                ;
            }
            sum = sum + self.pairings[i].specificity as u128;
            i += 1;
        }
        proof {
            lemma_specificity_total_bound(self.pairings@, n as nat);
            assert(specificity_total(self.pairings@, n as nat) / (n as nat) <= u64::MAX) by (nonlinear_arith)
                requires
                    specificity_total(self.pairings@, n as nat) <= n * (u64::MAX as nat),
                    n > 0,
            ;
        }
        (sum / (n as u128)) as u64
    }

    /// The total deviation of the modes from the wanted refresh rates,
    /// saturated at `u64::MAX`.
    pub fn mode_deviation(&self) -> (r: u64)
        ensures
            r as nat == variant_deviation(self.pairings@),
    {
        let n = self.pairings.len();
        let mut sum: u64 = 0;
        let mut i: usize = 0;
        while i < n
            invariant
                n == self.pairings@.len(),
                i <= n,
                sum as nat == if deviation_total(self.pairings@, i as nat) > u64::MAX {
                    u64::MAX as nat
                } else {
                    deviation_total(self.pairings@, i as nat)
                },
            decreases n - i,
        {
            sum = sum.saturating_add(self.pairings[i].mode_deviation());
            i += 1;
        }
        sum
    }

    /// Puts the variant back to its start and takes the first step: a test,
    /// or straight an apply when tests are skipped.
    pub fn start(&mut self, skip_tests: bool) -> (r: crate::variant::DSMAction)
        ensures
            skip_tests ==> final(self).state == VariantState::Applying && r == crate::variant::DSMAction::ApplyVariant,
            !skip_tests ==> final(self).state == VariantState::Testing && r == crate::variant::DSMAction::TestVariant,
            final(self).pairings@ == old(self).pairings@,
            final(self).profile == old(self).profile,
            final(self).subset == old(self).subset,
            final(self).index == old(self).index,
    {
        self.state.reset();
        if skip_tests {
            self.state = VariantState::Applying;
            return crate::variant::DSMAction::ApplyVariant;
        }
        self.state.advance(crate::variant::VSMInput::AtomicChangeDone)
    }

    pub fn discard(&mut self)
        ensures
            final(self).state == VariantState::Discarded,
            final(self).pairings@ == old(self).pairings@,
            final(self).profile == old(self).profile,
            final(self).subset == old(self).subset,
            final(self).index == old(self).index,
    {
        self.state = VariantState::Discarded;
    }
}

/// Sorted modes whose keys differ pairwise come in strictly increasing key
/// order.
pub proof fn lemma_sorted_modes_strict(s: Seq<WlMode>)
    requires
        sorted_modes(s),
        forall|i: int, j: int| 0 <= i < j < s.len() ==> mode_key(s[i]) != mode_key(s[j]),
    ensures
        forall|i: int, j: int| 0 <= i < j < s.len() ==> mode_lt(#[trigger] s[i], #[trigger] s[j]),
{
    assert forall|i: int, j: int| 0 <= i < j < s.len() implies mode_lt(#[trigger] s[i], #[trigger] s[j]) by {
        assert(mode_le(s[i], s[j]));
        assert(mode_key(s[i]) != mode_key(s[j]));
    }
}

/// A refresh rate matches a mode exactly when the two are at most 500 mHz
/// apart, in either direction.
pub proof fn lemma_refresh_match_boundary(w: i32, h: i32, r: i32, m: WlMode)
    requires
        m.base.width == w,
        m.base.height == h,
    ensures
        r - m.base.refresh == 500 ==> mode_fits(m, Mode::WiHeRe(w, h, r)),
        r - m.base.refresh == -500 ==> mode_fits(m, Mode::WiHeRe(w, h, r)),
        r - m.base.refresh == 501 ==> !mode_fits(m, Mode::WiHeRe(w, h, r)),
        r - m.base.refresh == -501 ==> !mode_fits(m, Mode::WiHeRe(w, h, r)),
{
}

} // verus!
