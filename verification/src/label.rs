use crate::errors::MlcError;
use vstd::arithmetic::div_mod::{lemma_div_is_ordered, lemma_div_nonincreasing};
use vstd::prelude::*;
use vstd::string::StrSliceExecFns;

verus! {

/// One candidate state at a node: accumulated objective costs (`values`),
/// auxiliary non-dominance state (`hidden_values`, index 0 holding elapsed
/// seconds by convention), and the node sequence from the search origin
/// (`path`, empty when path tracking is disabled).
pub struct Label {
    pub node_id: usize,
    pub values: Vec<u64>,
    pub hidden_values: Vec<u64>,
    pub path: Vec<usize>,
}

/// The mathematical view of a [`Label`].
#[verifier::ext_equal]
pub ghost struct LabelV {
    pub node_id: usize,
    pub values: Seq<u64>,
    pub hidden_values: Seq<u64>,
    pub path: Seq<usize>,
}

impl View for Label {
    type V = LabelV;

    open spec fn view(&self) -> LabelV {
        LabelV {
            node_id: self.node_id,
            values: self.values@,
            hidden_values: self.hidden_values@,
            path: self.path@,
        }
    }
}

/// The dominance relation of the Pareto frontier: `a` dominates `b` iff the
/// two cost vectors have the same dimension, `a` is no worse in every
/// objective, and strictly better in at least one.  Hidden values and paths
/// never participate.
pub open spec fn dominates(a: LabelV, b: LabelV) -> bool {
    &&& a.values.len() == b.values.len()
    &&& (forall|i: int| 0 <= i < a.values.len() ==> a.values[i] <= b.values[i])
    &&& (exists|i: int| 0 <= i < a.values.len() && a.values[i] < b.values[i])
}

/// Dominance is irreflexive: no label dominates itself.
pub proof fn lemma_dominates_irreflexive(a: LabelV)
    ensures
        !dominates(a, a),
{
}

/// Dominance is transitive: if `a` dominates `b` and `b` dominates `c`,
/// then `a` dominates `c`.
pub proof fn lemma_dominates_transitive(a: LabelV, b: LabelV, c: LabelV)
    requires
        dominates(a, b),
        dominates(b, c),
    ensures
        dominates(a, c),
{
    let i = choose|i: int| 0 <= i < a.values.len() && a.values[i] < b.values[i];
    assert(0 <= i < a.values.len() && a.values[i] < c.values[i]);
}

/// Dominance is antisymmetric: if `a` dominates `b`, then `b` does not
/// dominate `a`.
pub proof fn lemma_dominates_antisymmetric(a: LabelV, b: LabelV)
    requires
        dominates(a, b),
    ensures
        !dominates(b, a),
{
}

impl Label {
    /// Decides the dominance relation between two labels.
    pub fn dominates(&self, other: &Label) -> (r: bool)
        ensures
            r == dominates(self@, other@),
    {
        if self.values.len() != other.values.len() {
            return false;
        }
        let n = self.values.len();
        let mut strict = false;
        let mut i: usize = 0;
        while i < n
            invariant
                0 <= i <= n,
                n == self.values.len(),
                n == other.values.len(),
                forall|j: int| 0 <= j < i ==> self.values[j] <= other.values[j],
                strict == (exists|j: int|
                    0 <= j < i && self.values[j] < other.values[j]),
            decreases n - i,
        {
            if self.values[i] > other.values[i] {
                return false;
            }
            if self.values[i] < other.values[i] {
                strict = true;
            }
            i += 1;
        }
        proof {
            if strict {
                let j = choose|j: int| 0 <= j < i && self.values@[j] < other.values@[j];
                assert(0 <= j < self@.values.len() && self@.values[j] < other@.values[j]);
            }
        }
        strict
    }

    /// Structural equality of labels: all four fields agree.  This is the
    /// notion used for deduplication inside a bag.
    pub fn same_as(&self, other: &Label) -> (r: bool)
        ensures
            r == (self@ == other@),
    {
        let r = self.node_id == other.node_id && vec_u64_eq(&self.values, &other.values)
            && vec_u64_eq(&self.hidden_values, &other.hidden_values)
            && vec_usize_eq(&self.path, &other.path);
        proof {
            if r {
                assert(self@ =~= other@);
            }
        }
        r
    }

    /// An exact copy of this label.
    pub fn duplicate(&self) -> (r: Label)
        ensures
            r@ == self@,
    {
        let r = Label {
            node_id: self.node_id,
            values: copy_vec_u64(&self.values),
            hidden_values: copy_vec_u64(&self.hidden_values),
            path: copy_vec_usize(&self.path),
        };
        proof {
            assert(r@ =~= self@);
        }
        r
    }
}

/// The Pareto frontier at one node: labels of that node, none dominated by
/// another, no two equal.  Labels with identical costs but different paths
/// are distinct members: alternate equal-cost routes are preserved.
pub struct Bag {
    pub labels: Vec<Label>,
}

impl View for Bag {
    type V = Seq<LabelV>;

    open spec fn view(&self) -> Seq<LabelV> {
        self.labels@.map_values(|l: Label| l@)
    }
}

/// All labels of the bag belong to `node`.
pub open spec fn bag_at_node(b: Seq<LabelV>, node: usize) -> bool {
    forall|i: int| 0 <= i < b.len() ==> (#[trigger] b[i]).node_id == node
}

/// No label of the bag is dominated by another label of the same bag.
pub open spec fn bag_no_dominated(b: Seq<LabelV>) -> bool {
    forall|i: int, j: int|
        0 <= i < b.len() && 0 <= j < b.len() && i != j ==> !dominates(#[trigger] b[i], #[trigger] b[j])
}

/// No two labels of the bag are equal.
pub open spec fn bag_distinct(b: Seq<LabelV>) -> bool {
    forall|i: int, j: int| 0 <= i < j < b.len() ==> #[trigger] b[i] != #[trigger] b[j]
}

/// The bag invariant.
pub open spec fn bag_wf(b: Seq<LabelV>, node: usize) -> bool {
    &&& bag_at_node(b, node)
    &&& bag_no_dominated(b)
    &&& bag_distinct(b)
}

/// A candidate is turned away when some member of the bag dominates it or
/// equals it.
pub open spec fn bag_blocks(b: Seq<LabelV>, c: LabelV) -> bool {
    exists|i: int| 0 <= i < b.len() && (dominates(#[trigger] b[i], c) || b[i] == c)
}

/// The members of a bag that survive the arrival of `c`: those `c` does not
/// dominate, in their original order.
pub open spec fn prune_dominated(b: Seq<LabelV>, c: LabelV) -> Seq<LabelV>
    decreases b.len(),
{
    if b.len() == 0 {
        Seq::empty()
    } else {
        let rest = prune_dominated(b.drop_first(), c);
        if dominates(c, b[0]) {
            rest
        } else {
            seq![b[0]] + rest
        }
    }
}

/// The bag after an unblocked candidate is inserted: the surviving members
/// followed by the candidate itself.
pub open spec fn bag_after_insert(b: Seq<LabelV>, c: LabelV) -> Seq<LabelV> {
    prune_dominated(b, c).push(c)
}

/// Every survivor of pruning is a member of the original bag that `c` does
/// not dominate.
pub proof fn lemma_prune_membership(b: Seq<LabelV>, c: LabelV)
    ensures
        forall|i: int|
            0 <= i < prune_dominated(b, c).len() ==> !dominates(c, #[trigger] prune_dominated(b, c)[i])
                && b.contains(prune_dominated(b, c)[i]),
    decreases b.len(),
{
    if b.len() == 0 {
    } else {
        let rest = prune_dominated(b.drop_first(), c);
        lemma_prune_membership(b.drop_first(), c);
        assert forall|i: int| 0 <= i < rest.len() implies b.contains(rest[i]) by {
            let j = choose|j: int| 0 <= j < b.drop_first().len() && b.drop_first()[j] == rest[i];
            assert(b[j + 1] == rest[i]);
        }
        if !dominates(c, b[0]) {
            let p = prune_dominated(b, c);
            assert(p == seq![b[0]] + rest);
            assert(b.contains(b[0]));
            assert forall|i: int| 0 <= i < p.len() implies !dominates(c, #[trigger] p[i]) && b.contains(
                p[i],
            ) by {
                if i == 0 {
                    assert(p[0] == b[0]);
                } else {
                    assert(p[i] == rest[i - 1]);
                }
            }
        }
    }
}

/// Pruning preserves distinctness of the bag's members.
pub proof fn lemma_prune_distinct(b: Seq<LabelV>, c: LabelV)
    requires
        bag_distinct(b),
    ensures
        bag_distinct(prune_dominated(b, c)),
    decreases b.len(),
{
    if b.len() == 0 {
    } else {
        let tail = b.drop_first();
        assert forall|i: int, j: int| 0 <= i < j < tail.len() implies #[trigger] tail[i] != #[trigger] tail[j] by {
            assert(tail[i] == b[i + 1] && tail[j] == b[j + 1]);
        }
        lemma_prune_distinct(tail, c);
        lemma_prune_membership(tail, c);
        if !dominates(c, b[0]) {
            let rest = prune_dominated(tail, c);
            let p = prune_dominated(b, c);
            assert(p == seq![b[0]] + rest);
            assert forall|i: int, j: int| 0 <= i < j < p.len() implies #[trigger] p[i] != #[trigger] p[j] by {
                if i == 0 {
                    assert(p[j] == rest[j - 1]);
                    let k = choose|k: int| 0 <= k < tail.len() && tail[k] == rest[j - 1];
                    assert(b[k + 1] == rest[j - 1]);
                    assert(b[0] != b[k + 1]);
                } else {
                    assert(p[i] == rest[i - 1] && p[j] == rest[j - 1]);
                }
            }
        }
    }
}

/// Inserting an unblocked candidate into a well-formed bag yields a
/// well-formed bag again: the bag invariant is closed under insertion.
pub proof fn lemma_insert_preserves_wf(b: Seq<LabelV>, c: LabelV, node: usize)
    requires
        bag_wf(b, node),
        c.node_id == node,
        !bag_blocks(b, c),
    ensures
        bag_wf(bag_after_insert(b, c), node),
{
    let p = prune_dominated(b, c);
    let r = bag_after_insert(b, c);
    lemma_prune_membership(b, c);
    lemma_prune_distinct(b, c);
    assert forall|i: int| 0 <= i < p.len() implies (#[trigger] p[i]).node_id == node
        && !dominates(p[i], c) && p[i] != c by {
        let j = choose|j: int| 0 <= j < b.len() && b[j] == p[i];
        assert(!(dominates(b[j], c) || b[j] == c));
    }
    assert forall|i: int, j: int|
        0 <= i < r.len() && 0 <= j < r.len() && i != j implies !dominates(
        #[trigger] r[i],
        #[trigger] r[j],
    ) by {
        if i < p.len() && j < p.len() {
            let bi = choose|k: int| 0 <= k < b.len() && b[k] == p[i];
            let bj = choose|k: int| 0 <= k < b.len() && b[k] == p[j];
            if bi == bj {
                assert(p[i] == p[j]);
                assert(false);
            }
        }
    }
    assert forall|i: int, j: int| 0 <= i < j < r.len() implies #[trigger] r[i] != #[trigger] r[j] by {
        if j == p.len() {
            assert(r[i] == p[i] && r[j] == c);
        }
    }
}

impl Bag {
    /// An empty bag.
    pub fn new() -> (r: Bag)
        ensures
            r@ == Seq::<LabelV>::empty(),
    {
        let r = Bag { labels: Vec::new() };
        proof {
            assert(r@ =~= Seq::<LabelV>::empty());
        }
        r
    }

    /// Attempts to insert a candidate label.  If some member dominates the
    /// candidate or equals it, the bag is unchanged and the candidate is
    /// turned away; otherwise every member the candidate dominates is
    /// removed and the candidate is appended.
    pub fn try_insert(&mut self, candidate: &Label) -> (inserted: bool)
        ensures
            inserted == !bag_blocks(old(self)@, candidate@),
            inserted ==> final(self)@ == bag_after_insert(old(self)@, candidate@),
            !inserted ==> final(self)@ == old(self)@,
    {
        let ghost bv = self@;
        let n = self.labels.len();
        let mut i: usize = 0;
        while i < n
            invariant
                0 <= i <= n,
                n == self.labels.len(),
                self == old(self),
                forall|j: int|
                    0 <= j < i ==> !(dominates(#[trigger] self@[j], candidate@) || self@[j]
                        == candidate@),
            decreases n - i,
        {
            proof {
                assert(self@[i as int] == self.labels@[i as int]@);
            }
            if self.labels[i].dominates(candidate) || self.labels[i].same_as(candidate) {
                proof {
                    assert(dominates(self@[i as int], candidate@) || self@[i as int] == candidate@);
                }
                return false;
            }
            i += 1;
        }
        let mut kept: Vec<Label> = Vec::new();
        proof {
            assert(self@.skip(0) =~= self@);
            assert(kept@.map_values(|l: Label| l@) + prune_dominated(self@, candidate@)
                =~= prune_dominated(self@, candidate@));
        }
        let mut i: usize = 0;
        while i < n
            invariant
                0 <= i <= n,
                n == self.labels.len(),
                self == old(self),
                kept@.map_values(|l: Label| l@) + prune_dominated(
                    self@.skip(i as int),
                    candidate@,
                ) == prune_dominated(self@, candidate@),
            decreases n - i,
        {
            let ghost pre = self@.skip(i as int);
            proof {
                assert(pre.len() > 0);
                assert(pre.drop_first() =~= self@.skip(i + 1 as int));
                assert(pre[0] == self@[i as int]);
                assert(self@[i as int] == self.labels@[i as int]@);
            }
            if !candidate.dominates(&self.labels[i]) {
                kept.push(self.labels[i].duplicate());
                proof {
                    assert(kept@.map_values(|l: Label| l@) =~= kept@.drop_last().map_values(
                        |l: Label| l@,
                    ).push(self@[i as int]));
                    assert(prune_dominated(pre, candidate@) == seq![pre[0]] + prune_dominated(
                        pre.drop_first(),
                        candidate@,
                    ));
                    assert(kept@.map_values(|l: Label| l@) + prune_dominated(
                        self@.skip(i + 1 as int),
                        candidate@,
                    ) =~= prune_dominated(self@, candidate@));
                }
            } else {
                proof {
                    assert(prune_dominated(pre, candidate@) == prune_dominated(
                        pre.drop_first(),
                        candidate@,
                    ));
                }
            }
            i += 1;
        }
        proof {
            assert(self@.skip(n as int) =~= Seq::<LabelV>::empty());
            assert(kept@.map_values(|l: Label| l@) + prune_dominated(
                Seq::<LabelV>::empty(),
                candidate@,
            ) =~= kept@.map_values(|l: Label| l@));
        }
        kept.push(candidate.duplicate());
        proof {
            assert(kept@.map_values(|l: Label| l@) =~= kept@.drop_last().map_values(
                |l: Label| l@,
            ).push(candidate@));
        }
        self.labels = kept;
        true
    }
}

/// The full search frontier: one bag per node, indexed by node id.
pub struct Bags {
    pub bags: Vec<Bag>,
}

impl View for Bags {
    type V = Seq<Seq<LabelV>>;

    open spec fn view(&self) -> Seq<Seq<LabelV>> {
        self.bags@.map_values(|b: Bag| b@)
    }
}

impl Bags {
    /// One empty bag for each of `n` nodes.
    pub fn new_empty(n: usize) -> (r: Bags)
        ensures
            r@.len() == n,
            forall|i: int| 0 <= i < n ==> #[trigger] r@[i] == Seq::<LabelV>::empty(),
    {
        let mut bags: Vec<Bag> = Vec::new();
        let mut i: usize = 0;
        while i < n
            invariant
                0 <= i <= n,
                bags@.len() == i,
                forall|j: int|
                    0 <= j < i ==> #[trigger] bags@[j]@ == Seq::<LabelV>::empty(),
            decreases n - i,
        {
            bags.push(Bag::new());
            i += 1;
        }
        Bags { bags }
    }
}

/// Element-wise equality of two `u64` vectors.
pub fn vec_u64_eq(a: &Vec<u64>, b: &Vec<u64>) -> (r: bool)
    ensures
        r == (a@ == b@),
{
    if a.len() != b.len() {
        return false;
    }
    let n = a.len();
    let mut i: usize = 0;
    while i < n
        invariant
            0 <= i <= n,
            n == a.len() == b.len(),
            forall|j: int| 0 <= j < i ==> a[j] == b[j],
        decreases n - i,
    {
        if a[i] != b[i] {
            return false;
        }
        i += 1;
    }
    proof {
        assert(a@ =~= b@);
    }
    true
}

/// Element-wise equality of two `usize` vectors.
pub fn vec_usize_eq(a: &Vec<usize>, b: &Vec<usize>) -> (r: bool)
    ensures
        r == (a@ == b@),
{
    if a.len() != b.len() {
        return false;
    }
    let n = a.len();
    let mut i: usize = 0;
    while i < n
        invariant
            0 <= i <= n,
            n == a.len() == b.len(),
            forall|j: int| 0 <= j < i ==> a[j] == b[j],
        decreases n - i,
    {
        if a[i] != b[i] {
            return false;
        }
        i += 1;
    }
    proof {
        assert(a@ =~= b@);
    }
    true
}

/// A copy of a `u64` vector.
pub fn copy_vec_u64(a: &Vec<u64>) -> (r: Vec<u64>)
    ensures
        r@ == a@,
{
    let mut r: Vec<u64> = Vec::new();
    let n = a.len();
    let mut i: usize = 0;
    while i < n
        invariant
            0 <= i <= n,
            n == a.len(),
            r@ == a@.subrange(0, i as int),
        decreases n - i,
    {
        r.push(a[i]);
        proof {
            assert(r@ =~= a@.subrange(0, i + 1 as int));
        }
        i += 1;
    }
    proof {
        assert(a@.subrange(0, n as int) =~= a@);
    }
    r
}

/// Parameters of one pricing policy: a duration is charged once per started
/// `interval` (in minutes) at `price_per_interval` (in cents); when
/// `first_interval_free` is false, the first interval is charged as soon as
/// the elapsed time leaves zero.
#[derive(Clone, Copy, Debug, PartialEq, Eq, Structural)]
pub struct PriceIncrementInfo {
    pub interval: u64,
    pub price_per_interval: u64,
    pub first_interval_free: bool,
}

/// Clamps a mathematical integer into the `u64` range.
pub open spec fn clamp_u64(x: int) -> u64 {
    if x < 0 {
        0u64
    } else if x > u64::MAX {
        u64::MAX
    } else {
        x as u64
    }
}

/// How many whole charging intervals a candidate label must newly pay for,
/// given the previous label's elapsed seconds `old0` and the candidate's
/// elapsed seconds `new0`.  Crossing from "not started" (`old0 == 0`) into a
/// running rental charges the first interval immediately unless the policy's
/// first interval is free.
pub open spec fn spec_price_increment(info: PriceIncrementInfo, old0: u64, new0: u64) -> int
    recommends
        info.interval > 0,
{
    let old_intervals = (old0 as int / 60) / info.interval as int;
    let new_intervals = (new0 as int / 60) / info.interval as int;
    if old0 == 0 && new0 != 0 && !info.first_interval_free {
        new_intervals + 1
    } else {
        new_intervals - old_intervals
    }
}

/// The label a pricing policy returns: the price objective (`values[1]`) is
/// raised by the newly charged intervals, saturating at `u64::MAX`; every
/// other field is copied from the candidate unchanged.
pub open spec fn spec_calculate_new_price(
    info: PriceIncrementInfo,
    old: LabelV,
    new: LabelV,
) -> LabelV
    recommends
        info.interval > 0,
        old.hidden_values.len() >= 1,
        new.hidden_values.len() >= 1,
        new.values.len() >= 2,
{
    let inc = spec_price_increment(info, old.hidden_values[0], new.hidden_values[0]);
    LabelV {
        node_id: new.node_id,
        values: new.values.update(
            1,
            clamp_u64(new.values[1] + inc * info.price_per_interval as int),
        ),
        hidden_values: new.hidden_values,
        path: new.path,
    }
}

/// Whole charging intervals covered by a duration in minutes.
pub fn calculate_price_increment_intervals(duration_minutes: u64, info: &PriceIncrementInfo) -> (r:
    u64)
    requires
        info.interval > 0,
    ensures
        r == duration_minutes as int / info.interval as int,
{
    duration_minutes / info.interval
}

/// Applies a pricing policy to a candidate label.  The caller must supply
/// labels whose vectors are long enough for the policy to read the elapsed
/// seconds (`hidden_values[0]`) and the price objective (`values[1]`), and
/// whose elapsed time did not decrease; the engine's cost propagation
/// guarantees both.
pub fn calculate_new_price(old_label: &Label, new_label: &Label, info: &PriceIncrementInfo) -> (r:
    Label)
    requires
        info.interval > 0,
        old_label.hidden_values@.len() >= 1,
        new_label.hidden_values@.len() >= 1,
        new_label.values@.len() >= 2,
        old_label.hidden_values@[0] <= new_label.hidden_values@[0],
    ensures
        r@ == spec_calculate_new_price(*info, old_label@, new_label@),
{
    let old0 = old_label.hidden_values[0];
    let new0 = new_label.hidden_values[0];
    let old_duration_minutes = old0 / 60;
    let new_duration_minutes = new0 / 60;
    proof {
        lemma_div_is_ordered(old0 as int, new0 as int, 60);
        lemma_div_is_ordered(
            old_duration_minutes as int,
            new_duration_minutes as int,
            info.interval as int,
        );
        lemma_div_nonincreasing(new_duration_minutes as int, info.interval as int);
    }
    let old_intervals = calculate_price_increment_intervals(old_duration_minutes, info);
    let new_intervals = calculate_price_increment_intervals(new_duration_minutes, info);
    let price_increment: u64 = if old0 == 0 && new0 != 0 && !info.first_interval_free {
        new_intervals + 1
    } else {
        new_intervals - old_intervals
    };
    let add_amount = match price_increment.checked_mul(info.price_per_interval) {
        Some(p) => p,
        None => u64::MAX,
    };
    let new_price = new_label.values[1].saturating_add(add_amount);
    let mut values = copy_vec_u64(&new_label.values);
    values[1] = new_price;
    let r = Label {
        node_id: new_label.node_id,
        values,
        hidden_values: copy_vec_u64(&new_label.hidden_values),
        path: copy_vec_usize(&new_label.path),
    };
    proof {
        assert(r@ =~= spec_calculate_new_price(*info, old_label@, new_label@));
    }
    r
}

/// The bike-share policy with a free first interval: 30-minute intervals at
/// 100 cents each.
pub fn next_bike_tariff(old_label: &Label, new_label: &Label) -> (r: Label)
    requires
        old_label.hidden_values@.len() >= 1,
        new_label.hidden_values@.len() >= 1,
        new_label.values@.len() >= 2,
        old_label.hidden_values@[0] <= new_label.hidden_values@[0],
    ensures
        r@ == spec_calculate_new_price(next_bike_tariff_info(), old_label@, new_label@),
{
    let info = PriceIncrementInfo { interval: 30, price_per_interval: 100, first_interval_free: true };
    calculate_new_price(old_label, new_label, &info)
}

/// The bike-share policy without a free interval: 15-minute intervals at
/// 100 cents each, the first charged as soon as the rental starts.
pub fn next_bike_without_tariff(old_label: &Label, new_label: &Label) -> (r: Label)
    requires
        old_label.hidden_values@.len() >= 1,
        new_label.hidden_values@.len() >= 1,
        new_label.values@.len() >= 2,
        old_label.hidden_values@[0] <= new_label.hidden_values@[0],
    ensures
        r@ == spec_calculate_new_price(next_bike_no_tariff_info(), old_label@, new_label@),
{
    let info = PriceIncrementInfo {
        interval: 15,
        price_per_interval: 100,
        first_interval_free: false,
    };
    calculate_new_price(old_label, new_label, &info)
}

/// The personal-car policy: every started minute costs 19 cents.
pub fn personal_car(old_label: &Label, new_label: &Label) -> (r: Label)
    requires
        old_label.hidden_values@.len() >= 1,
        new_label.hidden_values@.len() >= 1,
        new_label.values@.len() >= 2,
        old_label.hidden_values@[0] <= new_label.hidden_values@[0],
    ensures
        r@ == spec_calculate_new_price(personal_car_info(), old_label@, new_label@),
{
    let info = PriceIncrementInfo { interval: 1, price_per_interval: 19, first_interval_free: false };
    calculate_new_price(old_label, new_label, &info)
}

/// The closed registry of pricing policies.  `NoUpdate` is the identity:
/// a candidate label is accepted exactly as cost propagation computed it.
#[derive(Clone, Copy, Debug, PartialEq, Eq, Structural)]
pub enum UpdateRule {
    NoUpdate,
    NextBikeTariff,
    NextBikeNoTariff,
    PersonalCar,
}

/// What a rule does to a candidate label `new` computed from a settled
/// label `old`.
pub open spec fn spec_apply_rule(rule: UpdateRule, old: LabelV, new: LabelV) -> LabelV {
    match rule {
        UpdateRule::NoUpdate => new,
        UpdateRule::NextBikeTariff => spec_calculate_new_price(next_bike_tariff_info(), old, new),
        UpdateRule::NextBikeNoTariff => spec_calculate_new_price(
            next_bike_no_tariff_info(),
            old,
            new,
        ),
        UpdateRule::PersonalCar => spec_calculate_new_price(personal_car_info(), old, new),
    }
}

/// The rule a registry name denotes, or `UnknownUpdateRule` for any other
/// name.
pub open spec fn spec_rule_of_name(s: Seq<char>) -> Result<UpdateRule, MlcError> {
    if s == "none"@ {
        Ok(UpdateRule::NoUpdate)
    } else if s == "next_bike_tariff"@ {
        Ok(UpdateRule::NextBikeTariff)
    } else if s == "next_bike_no_tariff"@ {
        Ok(UpdateRule::NextBikeNoTariff)
    } else if s == "personal_car"@ {
        Ok(UpdateRule::PersonalCar)
    } else {
        Err(MlcError::UnknownUpdateRule)
    }
}

impl UpdateRule {
    /// Looks a pricing policy up by its registry name.
    pub fn from_str(func_name: &str) -> (r: Result<UpdateRule, MlcError>)
        ensures
            r == spec_rule_of_name(func_name@),
    {
        if str_eq(func_name, "none") {
            Ok(UpdateRule::NoUpdate)
        } else if str_eq(func_name, "next_bike_tariff") {
            Ok(UpdateRule::NextBikeTariff)
        } else if str_eq(func_name, "next_bike_no_tariff") {
            Ok(UpdateRule::NextBikeNoTariff)
        } else if str_eq(func_name, "personal_car") {
            Ok(UpdateRule::PersonalCar)
        } else {
            Err(MlcError::UnknownUpdateRule)
        }
    }
}

/// Applies a pricing policy to a candidate label `new_label` computed from
/// the settled label `old_label`.
pub fn apply_rule(rule: UpdateRule, old_label: &Label, new_label: &Label) -> (r: Label)
    requires
        rule != UpdateRule::NoUpdate ==> {
            &&& old_label.hidden_values@.len() >= 1
            &&& new_label.hidden_values@.len() >= 1
            &&& new_label.values@.len() >= 2
            &&& old_label.hidden_values@[0] <= new_label.hidden_values@[0]
        },
    ensures
        r@ == spec_apply_rule(rule, old_label@, new_label@),
{
    match rule {
        UpdateRule::NoUpdate => new_label.duplicate(),
        UpdateRule::NextBikeTariff => next_bike_tariff(old_label, new_label),
        UpdateRule::NextBikeNoTariff => next_bike_without_tariff(old_label, new_label),
        UpdateRule::PersonalCar => personal_car(old_label, new_label),
    }
}

/// Character-wise equality of two strings.
pub fn str_eq(a: &str, b: &str) -> (r: bool)
    ensures
        r == (a@ == b@),
{
    let la = a.unicode_len();
    let lb = b.unicode_len();
    if la != lb {
        return false;
    }
    let mut i: usize = 0;
    while i < la
        invariant
            0 <= i <= la,
            la == a@.len(),
            la == b@.len(),
            forall|j: int| 0 <= j < i ==> a@[j] == b@[j],
        decreases la - i,
    {
        if a.get_char(i) != b.get_char(i) {
            return false;
        }
        i += 1;
    }
    proof {
        assert(a@ =~= b@);
    }
    true
}

/// Parameters of the bike-share policy with a free first interval.
pub open spec fn next_bike_tariff_info() -> PriceIncrementInfo {
    PriceIncrementInfo { interval: 30, price_per_interval: 100, first_interval_free: true }
}

/// Parameters of the bike-share policy without a free interval.
pub open spec fn next_bike_no_tariff_info() -> PriceIncrementInfo {
    PriceIncrementInfo { interval: 15, price_per_interval: 100, first_interval_free: false }
}

/// Parameters of the personal-car policy.
pub open spec fn personal_car_info() -> PriceIncrementInfo {
    PriceIncrementInfo { interval: 1, price_per_interval: 19, first_interval_free: false }
}

/// A copy of a `usize` vector.
pub fn copy_vec_usize(a: &Vec<usize>) -> (r: Vec<usize>)
    ensures
        r@ == a@,
{
    let mut r: Vec<usize> = Vec::new();
    let n = a.len();
    let mut i: usize = 0;
    while i < n
        invariant
            0 <= i <= n,
            n == a.len(),
            r@ == a@.subrange(0, i as int),
        decreases n - i,
    {
        r.push(a[i]);
        proof {
            assert(r@ =~= a@.subrange(0, i + 1 as int));
        }
        i += 1;
    }
    proof {
        assert(a@.subrange(0, n as int) =~= a@);
    }
    r
}

} // verus!
