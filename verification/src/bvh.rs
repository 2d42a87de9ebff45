use vstd::prelude::*;

verus! {

broadcast use vstd::seq_lib::group_to_multiset_ensures;

/// One object handed to the hierarchy builder: its position in the caller's list
/// and, along x, y and z, the key by which the lower end of its bounding box is
/// ordered.
#[derive(Clone, Copy, Debug, PartialEq, Eq, Structural)]
pub struct BvhItem {
    pub id: usize,
    pub key_x: i64,
    pub key_y: i64,
    pub key_z: i64,
}

impl BvhItem {
    /// The key along axis `slot`: x for 0, y for 1, z otherwise.
    pub open spec fn key_at(self, slot: int) -> i64 {
        if slot == 0 {
            self.key_x
        } else if slot == 1 {
            self.key_y
        } else {
            self.key_z
        }
    }

    /// The key along axis `slot`: x for 0, y for 1, z otherwise.
    pub fn key(&self, slot: usize) -> (r: i64)
        ensures
            r == self.key_at(slot as int),
            slot == 0 ==> r == self.key_x,
            slot == 1 ==> r == self.key_y,
            slot >= 2 ==> r == self.key_z,
    {
        if slot == 0 {
            self.key_x
        } else if slot == 1 {
            self.key_y
        } else {
            self.key_z
        }
    }
}

/// The key of an item along an axis is the field of that axis: `key_x` along
/// x (0), `key_y` along y (1), `key_z` along z (2).
pub proof fn lemma_key_reads_its_axis(item: BvhItem)
    ensures
        item.key_at(0) == item.key_x,
        item.key_at(1) == item.key_y,
        item.key_at(2) == item.key_z,
{
}

/// A split of a well-split hierarchy orders its objects by the field of its
/// axis: each object on the left has a `key_x` (for x), `key_y` (for y) or
/// `key_z` (for z) no greater than that of each object on the right.
pub proof fn lemma_split_orders_by_axis_field(plan: BvhPlan)
    requires
        plan.well_split(),
    ensures
        plan matches BvhPlan::Split { axis, left, right } ==> forall|a: int, b: int|
            0 <= a < left.items().len() && 0 <= b < right.items().len() ==> {
                &&& axis == 0 ==> (#[trigger] left.items()[a]).key_x <= (
                #[trigger] right.items()[b]).key_x
                &&& axis == 1 ==> left.items()[a].key_y <= right.items()[b].key_y
                &&& axis == 2 ==> left.items()[a].key_z <= right.items()[b].key_z
            },
{
    match plan {
        BvhPlan::Split { axis, left, right } => {
            assert forall|a: int, b: int|
                0 <= a < left.items().len() && 0 <= b < right.items().len() implies {
                &&& axis == 0 ==> (#[trigger] left.items()[a]).key_x <= (
                #[trigger] right.items()[b]).key_x
                &&& axis == 1 ==> left.items()[a].key_y <= right.items()[b].key_y
                &&& axis == 2 ==> left.items()[a].key_z <= right.items()[b].key_z
            } by {
                lemma_key_reads_its_axis(left.items()[a]);
                lemma_key_reads_its_axis(right.items()[b]);
            }
        },
        _ => {},
    }
}

/// The axis whose ordering the builder sorts by, for an axis number given by
/// the caller: 0 is x, 1 is y, and every other number z.
pub open spec fn spec_comparator_slot(axis: i32) -> usize {
    if axis == 0 {
        0
    } else if axis == 1 {
        1
    } else {
        2
    }
}

/// The axis whose ordering the builder sorts by, for an axis number given by
/// the caller: 0 is x, 1 is y, and every other number z.
pub fn comparator_slot(axis: i32) -> (r: usize)
    ensures
        r == spec_comparator_slot(axis),
{
    if axis == 0 {
        0
    } else if axis == 1 {
        1
    } else {
        2
    }
}

/// The items of `s` come in non-decreasing order of their key along `slot`.
pub open spec fn sorted_on(s: Seq<BvhItem>, slot: int) -> bool {
    forall|a: int, b: int| 0 <= a < b < s.len() ==> s[a].key_at(slot) <= s[b].key_at(slot)
}

/// Sorts `v` by the key along `slot`, keeping its items.
pub fn sort_on_axis(v: &mut Vec<BvhItem>, slot: usize)
    ensures
        final(v)@.len() == old(v)@.len(),
        final(v)@.to_multiset() == old(v)@.to_multiset(),
        sorted_on(final(v)@, slot as int),
{
    let n: usize = v.len();
    if n == 0 {
        return;
    }
    let mut i: usize = 1;
    while i < n
        invariant
            1 <= i <= n,
            n == v@.len(),
            v@.to_multiset() == old(v)@.to_multiset(),
            sorted_on(v@.subrange(0, i as int), slot as int),
        decreases n - i,
    {
        let mut j: usize = i;
        assert forall|a: int, b: int| 0 <= a < b < i implies v@[a].key_at(slot as int)
            <= v@[b].key_at(slot as int) by {
            assert(v@.subrange(0, i as int)[a] == v@[a]);
            assert(v@.subrange(0, i as int)[b] == v@[b]);
        }
        while j > 0 && v[j - 1].key(slot) > v[j].key(slot)
            invariant
                j <= i < n,
                n == v@.len(),
                v@.to_multiset() == old(v)@.to_multiset(),
                forall|a: int, b: int|
                    0 <= a < b <= i && a != j && b != j ==> v@[a].key_at(slot as int)
                        <= v@[b].key_at(slot as int),
                forall|b: int| j < b <= i ==> v@[j as int].key_at(slot as int) < v@[b].key_at(
                    slot as int,
                ),
            decreases j,
        {
            proof {
                crate::seq_lemmas::lemma_swap_keeps_multiset(v@, (j - 1) as int, j as int);
            }
            let lower = v[j - 1];
            let upper = v[j];
            v[j - 1] = upper;
            v[j] = lower;
            j = j - 1;
        }
        i = i + 1;
    }
    assert(v@.subrange(0, n as int) =~= v@);
}

/// The shape of a bounding volume hierarchy over the objects handed in. A node
/// over one object holds it on both sides; a node over two holds them as they
/// came; a node over more holds two sub-hierarchies, after sorting its objects
/// along `axis` and splitting them at the middle.
#[derive(Debug)]
pub enum BvhPlan {
    One(BvhItem),
    Two(BvhItem, BvhItem),
    Split { axis: usize, left: Box<BvhPlan>, right: Box<BvhPlan> },
}

impl BvhPlan {
    /// The objects under this node, left to right.
    pub open spec fn items(self) -> Seq<BvhItem>
        decreases self,
    {
        match self {
            BvhPlan::One(a) => seq![a],
            BvhPlan::Two(a, b) => seq![a, b],
            BvhPlan::Split { axis, left, right } => left.items() + right.items(),
        }
    }

    /// Where this node holds two objects, they come in order along axis `slot`.
    pub open spec fn pair_in_order(self, slot: int) -> bool {
        match self {
            BvhPlan::Two(a, b) => a.key_at(slot) <= b.key_at(slot),
            _ => true,
        }
    }

    /// Every split node of this hierarchy covers at least three objects, has a
    /// left part of half of them (rounded down), orders each object on the left
    /// no later than each object on the right along its axis, and a child of it
    /// that holds two objects lists them in order along that axis.
    pub open spec fn well_split(self) -> bool
        decreases self,
    {
        match self {
            BvhPlan::One(a) => true,
            BvhPlan::Two(a, b) => true,
            BvhPlan::Split { axis, left, right } => {
                &&& axis < 3
                &&& left.items().len() + right.items().len() >= 3
                &&& left.items().len() == (left.items().len() + right.items().len()) / 2
                &&& forall|a: int, b: int|
                    0 <= a < left.items().len() && 0 <= b < right.items().len() ==> (
                    #[trigger] left.items()[a]).key_at(axis as int) <= (
                    #[trigger] right.items()[b]).key_at(axis as int)
                &&& left.pair_in_order(axis as int)
                &&& right.pair_in_order(axis as int)
                &&& left.well_split()
                &&& right.well_split()
            },
        }
    }
}

/// Each split node of this hierarchy sorts along the axis that `f` names for
/// the objects under that node (handed to `f` in some order).
pub open spec fn axes_chosen_by<F: Fn(&Vec<BvhItem>) -> i32>(plan: BvhPlan, f: F) -> bool
    decreases plan,
{
    match plan {
        BvhPlan::One(a) => true,
        BvhPlan::Two(a, b) => true,
        BvhPlan::Split { axis, left, right } => {
            &&& exists|v: &Vec<BvhItem>, a: i32|
                #![trigger f.ensures((v,), a)]
                v@.to_multiset() == (left.items() + right.items()).to_multiset() && f.ensures(
                    (v,),
                    a,
                ) && axis == spec_comparator_slot(a)
            &&& axes_chosen_by(*left, f)
            &&& axes_chosen_by(*right, f)
        },
    }
}

/// Builds the hierarchy over `objects`. `choose_axis` names, for the objects of
/// a node of three or more, the axis to sort them along (0 for x, 1 for y,
/// anything else for z). The hierarchy holds exactly the objects handed in.
pub fn build_plan<F: Fn(&Vec<BvhItem>) -> i32>(objects: Vec<BvhItem>, choose_axis: &F) -> (plan:
    BvhPlan)
    requires
        objects@.len() >= 1,
        forall|v: &Vec<BvhItem>| #[trigger] choose_axis.requires((v,)),
    ensures
        plan.items().to_multiset() == objects@.to_multiset(),
        plan.well_split(),
        axes_chosen_by(plan, *choose_axis),
        objects@.len() == 1 ==> plan == BvhPlan::One(objects@[0]),
        objects@.len() == 2 ==> plan == BvhPlan::Two(objects@[0], objects@[1]),
        objects@.len() >= 3 ==> plan is Split,
    decreases objects@.len(),
{
    let span: usize = objects.len();
    if span == 1 {
        let plan = BvhPlan::One(objects[0]);
        assert(plan.items() =~= objects@);
        return plan;
    }
    if span == 2 {
        let plan = BvhPlan::Two(objects[0], objects[1]);
        assert(plan.items() =~= objects@);
        return plan;
    }
    let axis: i32 = choose_axis(&objects);
    let slot: usize = comparator_slot(axis);
    let mut sorted = objects;
    sort_on_axis(&mut sorted, slot);
    let ghost whole = sorted@;
    let mid: usize = span / 2;
    let right_objects = sorted.split_off(mid);
    let left_objects = sorted;
    proof {
        assert(whole =~= left_objects@ + right_objects@);
        vstd::seq_lib::lemma_multiset_commutative(left_objects@, right_objects@);
        if left_objects@.len() == 2 {
            assert(whole[0] == left_objects@[0] && whole[1] == left_objects@[1]);
        }
        if right_objects@.len() == 2 {
            assert(whole[mid as int] == right_objects@[0] && whole[mid + 1] == right_objects@[1]);
        }
    }
    let left = build_plan(left_objects, choose_axis);
    let right = build_plan(right_objects, choose_axis);
    let plan = BvhPlan::Split { axis: slot, left: Box::new(left), right: Box::new(right) };
    proof {
        vstd::seq_lib::lemma_multiset_commutative(left.items(), right.items());
        assert(plan.items() == left.items() + right.items());
        assert((*choose_axis).ensures((&objects,), axis));
        assert forall|a: int, b: int|
            0 <= a < left.items().len() && 0 <= b < right.items().len() implies (
            #[trigger] left.items()[a]).key_at(slot as int) <= (
            #[trigger] right.items()[b]).key_at(slot as int) by {
            let x = left.items()[a];
            let y = right.items()[b];
            assert(left_objects@.to_multiset().count(x) > 0);
            assert(left_objects@.contains(x));
            assert(right_objects@.to_multiset().count(y) > 0);
            assert(right_objects@.contains(y));
            let ia: int = choose|ia: int| 0 <= ia < left_objects@.len() && left_objects@[ia] == x;
            let ib: int = choose|ib: int| 0 <= ib < right_objects@.len() && right_objects@[ib] == y;
            assert(whole[ia] == x);
            assert(whole[mid + ib] == y);
        }
        assert(left.items().len() == left_objects@.len()) by {
            vstd::seq_lib::to_multiset_len(left.items());
            vstd::seq_lib::to_multiset_len(left_objects@);
        }
        assert(right.items().len() == right_objects@.len()) by {
            vstd::seq_lib::to_multiset_len(right.items());
            vstd::seq_lib::to_multiset_len(right_objects@);
        }
    }
    plan
}

} // verus!
