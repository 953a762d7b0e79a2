//! The execution context: one handle around one embedded engine instance.
//!
//! A context starts uninitialized, is initialized once with a set of
//! extension bundles — installed in an order that respects their declared
//! dependencies — and is then reused for any number of script runs. The
//! installed set is frozen once the context is ready; a failed run never
//! changes it, so later, independent runs still succeed. Running a script
//! is split at the engine boundary: `prepare_run` decides whether the
//! context may run and fixes the exact request handed to the engine, and
//! `complete_run` turns the engine's reported outcome into the caller's
//! result. The host drives the engine itself between the two, since the
//! engine is an outside component this library only embeds.

use vstd::prelude::*;

use crate::bundle::ExtensionBundle;
use crate::error::BundleError;
use crate::error::EngineError;
use crate::error::InitError;
use crate::error::SourcePosition;
use crate::ops::HostOperation;
use crate::ops::all_names_nonempty;
use crate::ops::has_duplicate_name;

verus! {

/// Whether two bundles in the list carry the same name.
pub open spec fn has_duplicate_bundle_name(bs: Seq<ExtensionBundle>) -> bool {
    exists|i: int, j: int|
        0 <= i < bs.len() && 0 <= j < bs.len() && i != j && #[trigger] bs[i].name@
            == #[trigger] bs[j].name@
}

/// Whether some bundle in the list carries the given name.
pub open spec fn name_present(bs: Seq<ExtensionBundle>, name: Seq<char>) -> bool {
    exists|j: int| 0 <= j < bs.len() && (#[trigger] bs[j]).name@ == name
}

/// Whether every dependency declared by any bundle in the list names a
/// bundle that is itself in the list.
pub open spec fn all_dependencies_present(bs: Seq<ExtensionBundle>) -> bool {
    forall|i: int, d: int|
        0 <= i < bs.len() && 0 <= d < bs[i].dependencies@.len() ==> name_present(
            bs,
            (#[trigger] bs[i].dependencies@[d])@,
        )
}

/// Whether bundle `b` declares a dependency on the given bundle name.
pub open spec fn depends_on(b: ExtensionBundle, name: Seq<char>) -> bool {
    exists|d: int| 0 <= d < b.dependencies@.len() && (#[trigger] b.dependencies@[d])@ == name
}

/// A nonempty set of positions in the list, each of whose bundles depends
/// on the name of some bundle at a position in the set. No install order
/// can satisfy such a set, and none exists in a dependency-free list.
pub open spec fn is_cyclic_set(bs: Seq<ExtensionBundle>, s: Set<int>) -> bool {
    &&& exists|w: int| s.contains(w)
    &&& forall|i: int| #[trigger] s.contains(i) ==> 0 <= i < bs.len()
    &&& forall|i: int| #[trigger] s.contains(i) ==> exists|j: int|
        s.contains(j) && depends_on(bs[i], bs[j].name@)
}

/// Whether the declared dependencies contain a cycle.
pub open spec fn has_dependency_cycle(bs: Seq<ExtensionBundle>) -> bool {
    exists|s: Set<int>| is_cyclic_set(bs, s)
}

/// Whether the dependency at position `d` of the bundle at position `p`
/// names a bundle at an earlier position of the list.
pub open spec fn dep_before(bs: Seq<ExtensionBundle>, p: int, d: int) -> bool {
    exists|q: int| 0 <= q < p && (#[trigger] bs[q]).name@ == bs[p].dependencies@[d]@
}

/// Whether the list is ordered so that every bundle comes after every
/// bundle it depends on.
pub open spec fn dependency_ordered(bs: Seq<ExtensionBundle>) -> bool {
    forall|p: int, d: int|
        0 <= p < bs.len() && 0 <= d < bs[p].dependencies@.len() ==> #[trigger] dep_before(bs, p, d)
}

/// Whether, in the installation order `order`, the dependency at position
/// `d` of the bundle placed at position `p` is satisfied by a bundle
/// placed earlier.
pub open spec fn placed_after_deps(
    bs: Seq<ExtensionBundle>,
    order: Seq<usize>,
    p: int,
    d: int,
) -> bool {
    exists|q: int| 0 <= q < p && bs[(#[trigger] order[q]) as int].name@
        == bs[order[p] as int].dependencies@[d]@
}

/// Whether `order` is a valid installation order for the bundles: a
/// permutation of all positions under which every bundle is placed after
/// all the bundles it depends on.
pub open spec fn valid_order(bs: Seq<ExtensionBundle>, order: Seq<usize>) -> bool {
    &&& order.len() == bs.len()
    &&& forall|p: int| 0 <= p < order.len() ==> (#[trigger] order[p]) < bs.len()
    &&& order.no_duplicates()
    &&& forall|p: int, d: int|
        0 <= p < order.len() && 0 <= d < bs[order[p] as int].dependencies@.len()
            ==> #[trigger] placed_after_deps(bs, order, p, d)
}

/// The rolling state of the planner: `order` holds distinct, in-range
/// positions, placement marks agree with it, every placed bundle follows
/// its dependencies, and no member of a cyclic set has been placed.
pub open spec fn planner_state_ok(
    bs: Seq<ExtensionBundle>,
    order: Seq<usize>,
    placed: Seq<bool>,
) -> bool {
    &&& placed.len() == bs.len()
    &&& order.len() <= bs.len()
    &&& forall|p: int| 0 <= p < order.len() ==> (#[trigger] order[p]) < bs.len()
    &&& order.no_duplicates()
    &&& forall|i: int| 0 <= i < bs.len() ==> ((#[trigger] placed[i]) <==> order.contains(i as usize))
    &&& forall|p: int, d: int|
        0 <= p < order.len() && 0 <= d < bs[order[p] as int].dependencies@.len()
            ==> #[trigger] placed_after_deps(bs, order, p, d)
    &&& forall|s: Set<int>, i: int|
        #[trigger] is_cyclic_set(bs, s) && #[trigger] s.contains(i) ==> !placed[i]
}

/// Whether, with the bundles at the `placed` positions already installed,
/// the dependency at position `d` of the bundle at position `i` is
/// satisfied by some placed bundle.
pub open spec fn dep_satisfied_at(
    bs: Seq<ExtensionBundle>,
    placed: Seq<bool>,
    i: int,
    d: int,
) -> bool {
    exists|j: int| 0 <= j < bs.len() && placed[j] && (#[trigger] bs[j]).name@
        == bs[i].dependencies@[d]@
}

/// Whether, with the bundles at the `placed` positions already installed,
/// every dependency of the bundle at position `i` is satisfied.
pub open spec fn deps_satisfied_spec(bs: Seq<ExtensionBundle>, placed: Seq<bool>, i: int) -> bool {
    forall|d: int|
        0 <= d < bs[i].dependencies@.len() ==> #[trigger] dep_satisfied_at(bs, placed, i, d)
}

/// Scans a bundle list for two bundles with the same name; reports one of
/// the colliding names.
#[verifier::loop_isolation(false)]
fn find_duplicate_bundle_name(bundles: &Vec<ExtensionBundle>) -> (r: Option<String>)
    ensures
        r is Some <==> has_duplicate_bundle_name(bundles@),
        r is Some ==> exists|i: int, j: int|
            0 <= i < j < bundles@.len() && (#[trigger] bundles@[i]).name@
                == (#[trigger] bundles@[j]).name@ && r->0@ == bundles@[j].name@,
{
    let mut j: usize = 1;
    while j < bundles.len()
        invariant
            1 <= j || bundles@.len() == 0,
            j <= bundles@.len() || j == 1,
            forall|p: int, q: int|
                0 <= p < q < j && q < bundles@.len() ==> (#[trigger] bundles@[p]).name@
                    != (#[trigger] bundles@[q]).name@,
        decreases bundles@.len() - j,
    {
        let mut i: usize = 0;
        while i < j
            invariant
                0 <= i <= j < bundles@.len(),
                forall|p: int| 0 <= p < i ==> (#[trigger] bundles@[p]).name@
                    != bundles@[j as int].name@,
            decreases j - i,
        {
            if bundles[i].name == bundles[j].name {
                return Some(bundles[j].name.clone());
            }
            i = i + 1;
        }
        j = j + 1;
    }
    proof {
        assert forall|i: int, j2: int|
            0 <= i < bundles@.len() && 0 <= j2 < bundles@.len() && i != j2 implies
            (#[trigger] bundles@[i]).name@ != (#[trigger] bundles@[j2]).name@ by {
            if i < j2 {
            } else {
                assert(bundles@[j2].name@ != bundles@[i].name@);
            }
        }
    }
    None
}

/// Scans for a declared dependency that names no bundle in the list;
/// reports the first such name.
#[verifier::loop_isolation(false)]
fn find_missing_dependency(bundles: &Vec<ExtensionBundle>) -> (r: Option<String>)
    ensures
        r is None <==> all_dependencies_present(bundles@),
        r is Some ==> exists|i: int, d: int|
            {
                &&& 0 <= i < bundles@.len()
                &&& 0 <= d < bundles@[i].dependencies@.len()
                &&& r->0@ == (#[trigger] bundles@[i].dependencies@[d])@
                &&& !name_present(bundles@, bundles@[i].dependencies@[d]@)
            },
{
    let mut i: usize = 0;
    while i < bundles.len()
        invariant
            0 <= i <= bundles@.len(),
            forall|i2: int, d: int|
                0 <= i2 < i && 0 <= d < bundles@[i2].dependencies@.len() ==> name_present(
                    bundles@,
                    (#[trigger] bundles@[i2].dependencies@[d])@,
                ),
        decreases bundles@.len() - i,
    {
        let mut d: usize = 0;
        while d < bundles[i].dependencies.len()
            invariant
                0 <= i < bundles@.len(),
                0 <= d <= bundles@[i as int].dependencies@.len(),
                forall|d2: int|
                    0 <= d2 < d ==> name_present(
                        bundles@,
                        (#[trigger] bundles@[i as int].dependencies@[d2])@,
                    ),
            decreases bundles@.len() - i,
                bundles@[i as int].dependencies@.len() - d,
    {
            let wanted = &bundles[i].dependencies[d];
            let mut j: usize = 0;
            let mut found = false;
            while j < bundles.len()
                invariant
                    0 <= j <= bundles@.len(),
                    0 <= i < bundles@.len(),
                    0 <= d < bundles@[i as int].dependencies@.len(),
                    wanted == &bundles@[i as int].dependencies@[d as int],
                    found ==> name_present(bundles@, wanted@),
                    !found ==> forall|j2: int| 0 <= j2 < j ==> (#[trigger] bundles@[j2]).name@
                        != wanted@,
                decreases bundles@.len() - j,
            {
                if bundles[j].name == *wanted {
                    found = true;
                }
                j = j + 1;
            }
            if !found {
                return Some(wanted.clone());
            }
            d = d + 1;
        }
        i = i + 1;
    }
    None
}

/// Checks, against the already-placed positions, whether every dependency
/// of the bundle at position `i` is satisfied.
#[verifier::loop_isolation(false)]
fn deps_satisfied(bundles: &Vec<ExtensionBundle>, placed: &Vec<bool>, i: usize) -> (r: bool)
    requires
        i < bundles@.len(),
        placed@.len() == bundles@.len(),
    ensures
        r == deps_satisfied_spec(bundles@, placed@, i as int),
{
    let mut d: usize = 0;
    while d < bundles[i].dependencies.len()
        invariant
            0 <= d <= bundles@[i as int].dependencies@.len(),
            forall|d2: int|
                0 <= d2 < d ==> #[trigger] dep_satisfied_at(bundles@, placed@, i as int, d2),
        decreases bundles@[i as int].dependencies@.len() - d,
    {
        let wanted = &bundles[i].dependencies[d];
        let mut j: usize = 0;
        let mut found = false;
        while j < bundles.len()
            invariant
                0 <= j <= bundles@.len(),
                0 <= d < bundles@[i as int].dependencies@.len(),
                wanted == &bundles@[i as int].dependencies@[d as int],
                found ==> dep_satisfied_at(bundles@, placed@, i as int, d as int),
                !found ==> forall|j2: int|
                    0 <= j2 < j ==> !(placed@[j2] && (#[trigger] bundles@[j2]).name@ == wanted@),
            decreases bundles@.len() - j,
        {
            if placed[j] && bundles[j].name == *wanted {
                found = true;
            }
            j = j + 1;
        }
        if !found {
            proof {
                assert(!dep_satisfied_at(bundles@, placed@, i as int, d as int));
            }
            return false;
        }
        d = d + 1;
    }
    true
}

/// Plans an installation order for bundles with unique names and all
/// dependencies present: repeatedly places any bundle whose dependencies
/// are already placed. Succeeds with a valid order exactly when the
/// declared dependencies contain no cycle.
#[verifier::loop_isolation(false)]
fn plan_order(bundles: &Vec<ExtensionBundle>) -> (r: Result<Vec<usize>, InitError>)
    requires
        !has_duplicate_bundle_name(bundles@),
        all_dependencies_present(bundles@),
    ensures
        r is Ok <==> !has_dependency_cycle(bundles@),
        r is Err ==> r == Err::<Vec<usize>, InitError>(InitError::DependencyCycle),
        r is Ok ==> valid_order(bundles@, r->Ok_0@),
{
    broadcast use vstd::set::group_set_axioms;

    let n = bundles.len();
    let mut order: Vec<usize> = Vec::new();
    let mut placed: Vec<bool> = vec![false; n];
    loop
        invariant
            planner_state_ok(bundles@, order@, placed@),
        decreases bundles@.len() - order@.len(),
    {
        let ghost len0 = order@.len();
        let mut progress = false;
        let mut i: usize = 0;
        while i < n
            invariant
                planner_state_ok(bundles@, order@, placed@),
                0 <= i <= n,
                order@.len() >= len0,
                progress ==> order@.len() > len0,
                !progress ==> forall|i2: int|
                    0 <= i2 < i && !placed@[i2] ==> !deps_satisfied_spec(bundles@, placed@, i2),
            decreases n - i,
        {
            if !placed[i] && deps_satisfied(bundles, &placed, i) {
                let ghost old_order = order@;
                let ghost old_placed = placed@;
                order.push(i);
                placed[i] = true;
                progress = true;
                proof {
                    lemma_place_one(bundles@, old_order, old_placed, i as int);
                }
            }
            i = i + 1;
        }
        if order.len() == n {
            proof {
                lemma_full_order_no_cycle(bundles@, order@, placed@);
            }
            return Ok(order);
        }
        if !progress {
            proof {
                lemma_stall_has_cycle(bundles@, order@, placed@);
            }
            return Err(InitError::DependencyCycle);
        }
    }
}

/// Placing one bundle whose dependencies are all placed keeps the
/// planner's state sound.
proof fn lemma_place_one(bs: Seq<ExtensionBundle>, order: Seq<usize>, placed: Seq<bool>, i: int)
    requires
        !has_duplicate_bundle_name(bs),
        planner_state_ok(bs, order, placed),
        bs.len() <= usize::MAX,
        0 <= i < bs.len(),
        !placed[i],
        deps_satisfied_spec(bs, placed, i),
    ensures
        planner_state_ok(bs, order.push(i as usize), placed.update(i, true)),
{
    if order.len() == bs.len() {
        lemma_full_order_all_placed(bs, order, placed);
    }
    lemma_place_one_distinct(bs, order, placed, i);
    lemma_place_one_marks(bs, order, placed, i);
    lemma_place_one_deps(bs, order, placed, i);
    lemma_place_one_cycle_safe(bs, order, placed, i);
}

/// The extended order still has distinct, in-range entries.
proof fn lemma_place_one_distinct(
    bs: Seq<ExtensionBundle>,
    order: Seq<usize>,
    placed: Seq<bool>,
    i: int,
)
    requires
        planner_state_ok(bs, order, placed),
        bs.len() <= usize::MAX,
        0 <= i < bs.len(),
        !placed[i],
    ensures
        order.push(i as usize).no_duplicates(),
        forall|p: int|
            0 <= p < order.push(i as usize).len() ==> (#[trigger] order.push(i as usize)[p])
                < bs.len(),
{
    let o2 = order.push(i as usize);
    assert(!order.contains(i as usize));
    assert forall|p: int, q: int|
        0 <= p < o2.len() && 0 <= q < o2.len() && p != q implies o2[p] != o2[q] by {
        if p < order.len() && q < order.len() {
        } else if p < order.len() {
            if o2[p] == i as usize {
                assert(order.contains(i as usize));
            }
        } else {
            if o2[q] == i as usize {
                assert(order.contains(i as usize));
            }
        }
    }
}

/// The new placement marks agree with membership in the extended order.
proof fn lemma_place_one_marks(
    bs: Seq<ExtensionBundle>,
    order: Seq<usize>,
    placed: Seq<bool>,
    i: int,
)
    requires
        planner_state_ok(bs, order, placed),
        bs.len() <= usize::MAX,
        0 <= i < bs.len(),
        !placed[i],
    ensures
        forall|i2: int|
            0 <= i2 < bs.len() ==> ((#[trigger] placed.update(i, true)[i2]) <==> order.push(
                i as usize,
            ).contains(i2 as usize)),
{
    let o2 = order.push(i as usize);
    let p2 = placed.update(i, true);
    assert forall|i2: int| 0 <= i2 < bs.len() implies ((#[trigger] p2[i2]) <==> o2.contains(
        i2 as usize,
    )) by {
        if i2 == i {
            assert(o2[o2.len() - 1] == i as usize);
            assert(o2.contains(i as usize));
        } else {
            assert(i2 as usize != i as usize);
            if o2.contains(i2 as usize) {
                let w = choose|w: int| 0 <= w < o2.len() && o2[w] == i2 as usize;
                assert(w < order.len());
                assert(order.contains(i2 as usize));
            }
            if placed[i2] {
                let w = choose|w: int| 0 <= w < order.len() && order[w] == i2 as usize;
                assert(o2[w] == i2 as usize);
                assert(o2.contains(i2 as usize));
            }
        }
    }
}

/// Every placed bundle, the newly placed one included, follows all the
/// bundles it depends on.
proof fn lemma_place_one_deps(
    bs: Seq<ExtensionBundle>,
    order: Seq<usize>,
    placed: Seq<bool>,
    i: int,
)
    requires
        planner_state_ok(bs, order, placed),
        bs.len() <= usize::MAX,
        0 <= i < bs.len(),
        deps_satisfied_spec(bs, placed, i),
    ensures
        forall|p: int, d: int|
            0 <= p < order.push(i as usize).len() && 0 <= d < bs[order.push(i as usize)[p] as int].dependencies@.len()
                ==> #[trigger] placed_after_deps(bs, order.push(i as usize), p, d),
{
    let o2 = order.push(i as usize);
    assert forall|p: int, d: int|
        0 <= p < o2.len() && 0 <= d < bs[o2[p] as int].dependencies@.len() implies #[trigger] placed_after_deps(
        bs,
        o2,
        p,
        d,
    ) by {
        if p < order.len() {
            assert(placed_after_deps(bs, order, p, d));
            let q = choose|q: int|
                0 <= q < p && bs[(#[trigger] order[q]) as int].name@
                    == bs[order[p] as int].dependencies@[d]@;
            assert(o2[q] == order[q]);
            assert(bs[(o2[q]) as int].name@ == bs[o2[p] as int].dependencies@[d]@);
        } else {
            assert(o2[p] == i as usize);
            assert(dep_satisfied_at(bs, placed, i, d));
            let j = choose|j: int|
                0 <= j < bs.len() && placed[j] && (#[trigger] bs[j]).name@
                    == bs[i].dependencies@[d]@;
            assert(order.contains(j as usize));
            let q = choose|q: int| 0 <= q < order.len() && order[q] == j as usize;
            assert(o2[q] == j as usize);
            assert(bs[(o2[q]) as int].name@ == bs[o2[p] as int].dependencies@[d]@);
        }
    }
}

/// The newly placed bundle cannot be a member of any cyclic set: one of
/// its dependencies would then name a bundle that is still unplaced.
proof fn lemma_place_one_cycle_safe(
    bs: Seq<ExtensionBundle>,
    order: Seq<usize>,
    placed: Seq<bool>,
    i: int,
)
    requires
        !has_duplicate_bundle_name(bs),
        placed.len() == bs.len(),
        forall|s: Set<int>, i2: int|
            #[trigger] is_cyclic_set(bs, s) && #[trigger] s.contains(i2) ==> !placed[i2],
        0 <= i < bs.len(),
        deps_satisfied_spec(bs, placed, i),
    ensures
        forall|s: Set<int>, i2: int|
            #[trigger] is_cyclic_set(bs, s) && #[trigger] s.contains(i2) ==> !placed.update(
                i,
                true,
            )[i2],
{
    let p2 = placed.update(i, true);
    assert forall|s: Set<int>, i2: int|
        #[trigger] is_cyclic_set(bs, s) && #[trigger] s.contains(i2) implies !p2[i2] by {
        if i2 == i {
            lemma_satisfied_not_in_cycle(bs, placed, i, s);
        } else {
            assert(0 <= i2 < bs.len());
            assert(p2[i2] == placed[i2]);
        }
    }
}

/// A bundle whose dependencies are all satisfied by placed bundles
/// cannot belong to a cyclic set none of whose members is placed.
proof fn lemma_satisfied_not_in_cycle(
    bs: Seq<ExtensionBundle>,
    placed: Seq<bool>,
    i: int,
    s: Set<int>,
)
    requires
        !has_duplicate_bundle_name(bs),
        forall|i2: int| #[trigger] s.contains(i2) ==> !placed[i2],
        is_cyclic_set(bs, s),
        0 <= i < bs.len(),
        deps_satisfied_spec(bs, placed, i),
    ensures
        !s.contains(i),
{
    if s.contains(i) {
        assert(exists|j: int| s.contains(j) && depends_on(bs[i], bs[j].name@));
        let j = choose|j: int| s.contains(j) && depends_on(bs[i], bs[j].name@);
        assert(depends_on(bs[i], bs[j].name@));
        assert(exists|d: int|
            0 <= d < bs[i].dependencies@.len() && (#[trigger] bs[i].dependencies@[d])@
                == bs[j].name@);
        let d = choose|d: int|
            0 <= d < bs[i].dependencies@.len() && (#[trigger] bs[i].dependencies@[d])@
                == bs[j].name@;
        assert(dep_satisfied_at(bs, placed, i, d));
        let j2 = choose|j2: int|
            0 <= j2 < bs.len() && placed[j2] && (#[trigger] bs[j2]).name@
                == bs[i].dependencies@[d]@;
        if j2 != j {
            assert(bs[j2].name@ == bs[j].name@);
            assert(has_duplicate_bundle_name(bs));
        }
        assert(placed[j]);
        assert(!placed[j]);
    }
}

/// With a full order, every position has been placed.
proof fn lemma_full_order_all_placed(
    bs: Seq<ExtensionBundle>,
    order: Seq<usize>,
    placed: Seq<bool>,
)
    requires
        planner_state_ok(bs, order, placed),
        bs.len() <= usize::MAX,
        order.len() == bs.len(),
    ensures
        forall|i2: int| 0 <= i2 < bs.len() ==> placed[i2],
{
    broadcast use vstd::set::group_set_axioms;

    let n = bs.len() as int;
    let oi = order.map_values(|u: usize| u as int);
    assert(oi.no_duplicates()) by {
        assert forall|p: int, q: int|
            0 <= p < oi.len() && 0 <= q < oi.len() && p != q implies oi[p] != oi[q] by {
            assert(order[p] != order[q]);
        }
    }
    assert forall|i2: int| 0 <= i2 < n implies placed[i2] by {
        if !placed[i2] {
            assert(!order.contains(i2 as usize));
            assert(!oi.contains(i2)) by {
                if oi.contains(i2) {
                    let w = choose|w: int| 0 <= w < oi.len() && oi[w] == i2;
                    assert(order[w] == i2 as usize);
                    assert(order.contains(i2 as usize));
                }
            }
            assert(!oi.to_set().contains(i2));
            assert(oi.to_set().subset_of(vstd::set_lib::set_int_range(0, n))) by {
                assert forall|x: int| oi.to_set().contains(x) implies vstd::set_lib::set_int_range(
                    0,
                    n,
                ).contains(x) by {
                    let w = choose|w: int| 0 <= w < oi.len() && oi[w] == x;
                    assert(order[w] < bs.len());
                }
            }
            vstd::set_lib::lemma_int_range(0, n);
            oi.unique_seq_to_set();
            oi.to_set().lemma_subset_not_in_lt(vstd::set_lib::set_int_range(0, n), i2);
            assert(false);
        }
    }
}

/// When every position has been placed, no cyclic set can exist, since
/// none of its members could ever have been placed.
proof fn lemma_full_order_no_cycle(bs: Seq<ExtensionBundle>, order: Seq<usize>, placed: Seq<bool>)
    requires
        planner_state_ok(bs, order, placed),
        bs.len() <= usize::MAX,
        order.len() == bs.len(),
    ensures
        !has_dependency_cycle(bs),
        valid_order(bs, order),
{
    lemma_full_order_all_placed(bs, order, placed);
    if has_dependency_cycle(bs) {
        let s = choose|s: Set<int>| is_cyclic_set(bs, s);
        assert(exists|w: int| s.contains(w));
        let w = choose|w: int| s.contains(w);
        assert(!placed[w]);
        assert(0 <= w < bs.len());
        assert(false);
    }
}

/// When a whole pass places nothing and positions remain, the unplaced
/// positions form a cyclic set: each has a dependency satisfiable only
/// within the unplaced set.
proof fn lemma_stall_has_cycle(bs: Seq<ExtensionBundle>, order: Seq<usize>, placed: Seq<bool>)
    requires
        all_dependencies_present(bs),
        planner_state_ok(bs, order, placed),
        bs.len() <= usize::MAX,
        order.len() < bs.len(),
        forall|i2: int| 0 <= i2 < bs.len() && !placed[i2] ==> !deps_satisfied_spec(bs, placed, i2),
    ensures
        has_dependency_cycle(bs),
{
    broadcast use vstd::set::group_set_axioms;

    let n = bs.len() as int;
    let s = Set::new(|i2: int| 0 <= i2 < n && !placed[i2]);
    // Some position is unplaced, else the order would already be full.
    assert(exists|i2: int| 0 <= i2 < n && !placed[i2]) by {
        if forall|i2: int| 0 <= i2 < n ==> placed[i2] {
            let oi = order.map_values(|u: usize| u as int);
            assert(vstd::set_lib::set_int_range(0, n).subset_of(oi.to_set())) by {
                assert forall|x: int| vstd::set_lib::set_int_range(0, n).contains(x) implies oi.to_set().contains(
                    x,
                ) by {
                    assert(placed[x]);
                    assert(order.contains(x as usize));
                    let w = choose|w: int| 0 <= w < order.len() && order[w] == x as usize;
                    assert(oi[w] == x);
                    assert(oi.contains(x));
                }
            }
            vstd::set_lib::lemma_int_range(0, n);
            oi.lemma_cardinality_of_set();
            vstd::set_lib::lemma_len_subset(
                vstd::set_lib::set_int_range(0, n),
                oi.to_set(),
            );
            assert(false);
        }
    }
    let w = choose|i2: int| 0 <= i2 < n && !placed[i2];
    assert(s.contains(w));
    // Every unplaced bundle has a dependency that only unplaced bundles
    // carry the name of.
    assert forall|i2: int| #[trigger] s.contains(i2) implies exists|j: int|
        s.contains(j) && depends_on(bs[i2], bs[j].name@) by {
        assert(0 <= i2 < n && !placed[i2]);
        assert(!deps_satisfied_spec(bs, placed, i2));
        assert(exists|d: int|
            0 <= d < bs[i2].dependencies@.len() && !(#[trigger] dep_satisfied_at(
                bs,
                placed,
                i2,
                d,
            )));
        let d = choose|d: int|
            0 <= d < bs[i2].dependencies@.len() && !(#[trigger] dep_satisfied_at(
                bs,
                placed,
                i2,
                d,
            ));
        assert(name_present(bs, (bs[i2].dependencies@[d])@));
        let j = choose|j: int| 0 <= j < bs.len() && (#[trigger] bs[j]).name@
            == bs[i2].dependencies@[d]@;
        if placed[j] {
            assert(dep_satisfied_at(bs, placed, i2, d));
        }
        assert(s.contains(j));
        assert((bs[i2].dependencies@[d])@ == bs[j].name@);
        assert(depends_on(bs[i2], bs[j].name@));
    }
    assert(is_cyclic_set(bs, s));
}

/// Whether `out` presents exactly the elements of `input`, each exactly
/// once, in some order.
pub open spec fn reordering_of(out: Seq<ExtensionBundle>, input: Seq<ExtensionBundle>) -> bool {
    exists|ord: Seq<usize>|
        {
            &&& ord.len() == input.len()
            &&& out.len() == input.len()
            &&& ord.no_duplicates()
            &&& forall|p: int| 0 <= p < ord.len() ==> (#[trigger] ord[p]) < input.len()
            &&& forall|p: int| 0 <= p < out.len() ==> #[trigger] out[p] == input[ord[p] as int]
        }
}

/// Whether some installed bundle exposes an operation of the given name.
pub open spec fn context_has_operation(inst: Seq<ExtensionBundle>, name: Seq<char>) -> bool {
    exists|p: int, k: int|
        0 <= p < inst.len() && 0 <= k < inst[p].operations@.len()
            && (#[trigger] inst[p].operations@[k]).name@ == name
}

/// An installation neither drops nor duplicates a bundle: a reordering
/// of a list with distinct bundle names has distinct bundle names too.
pub proof fn lemma_installation_keeps_names_distinct(
    out: Seq<ExtensionBundle>,
    input: Seq<ExtensionBundle>,
)
    requires
        reordering_of(out, input),
        !has_duplicate_bundle_name(input),
    ensures
        !has_duplicate_bundle_name(out),
{
    let ord = choose|ord: Seq<usize>|
        {
            &&& ord.len() == input.len()
            &&& out.len() == input.len()
            &&& ord.no_duplicates()
            &&& forall|p: int| 0 <= p < ord.len() ==> (#[trigger] ord[p]) < input.len()
            &&& forall|p: int| 0 <= p < out.len() ==> #[trigger] out[p] == input[ord[p] as int]
        };
    assert forall|i: int, j: int|
        0 <= i < out.len() && 0 <= j < out.len() && i != j implies #[trigger] out[i].name@
        != #[trigger] out[j].name@ by {
        assert(out[i] == input[ord[i] as int]);
        assert(out[j] == input[ord[j] as int]);
        assert(ord[i] != ord[j]);
    }
}

/// One script execution: the source text to run and the module identifier
/// it runs under. The identifier is a diagnostic label only; it resolves
/// to no file. Not retained after the run completes.
#[derive(Debug)]
pub struct ScriptExecutionRequest {
    /// The script source text.
    pub script: String,
    /// The module identifier the engine attaches to diagnostics.
    pub module_id: String,
}

/// What the engine reported for one script execution: clean completion,
/// or a parse error, uncaught exception or unhandled rejection, with its
/// diagnostic message and source position where the engine gave one.
#[derive(Debug)]
pub enum RunOutcome {
    /// The script ran to completion.
    Success,
    /// The script failed; the engine's diagnostic is carried along.
    Failure { message: String, position: Option<SourcePosition> },
}

/// The installed state of a ready context: the bundles it was initialized
/// with and the order in which they were installed.
#[derive(Debug)]
struct ContextState {
    bundles: Vec<ExtensionBundle>,
    order: Vec<usize>,
}

/// The execution context: the owning handle around one engine instance.
///
/// Starts uninitialized; `initialize` installs a set of extension bundles
/// in dependency order and makes it ready; once ready the installed set
/// is frozen until the handle is dropped. The context must be driven from
/// one logical thread of control at a time; independent contexts share
/// nothing. A run that fails leaves the installed state untouched, so
/// later, independent scripts still run.
#[derive(Debug)]
pub struct SapphillonRuntime {
    state: Option<ContextState>,
}

impl SapphillonRuntime {
    /// A ready context's install order is always valid for its bundles.
    #[verifier::type_invariant]
    spec fn type_wf(self) -> bool {
        self.state matches Some(st) ==> valid_order(st.bundles@, st.order@)
    }

    /// Whether the context has been initialized and can run scripts.
    pub closed spec fn is_ready(&self) -> bool {
        self.state is Some
    }

    /// The installed bundles of a ready context, in installation order.
    pub closed spec fn installed(&self) -> Seq<ExtensionBundle> {
        Seq::new(
            self.state->0.order@.len(),
            |p: int| self.state->0.bundles@[self.state->0.order@[p] as int],
        )
    }

    /// Creates an uninitialized context: no engine state exists yet, and
    /// `run` on it fails until `initialize` succeeds.
    pub fn new() -> (r: Self)
        ensures
            !r.is_ready(),
    {
        SapphillonRuntime { state: None }
    }

    /// Installs the given bundles and makes the context ready.
    ///
    /// On an already-ready context this is a silent no-op: the installed
    /// set is frozen, and re-initialization is ignored rather than an
    /// error. Otherwise the bundles are checked — names unique, every
    /// declared dependency present, no dependency cycle — and installed
    /// in an order that puts every bundle after all of its dependencies.
    /// On any error the context stays uninitialized and unchanged.
    pub fn initialize(&mut self, bundles: Vec<ExtensionBundle>) -> (r: Result<(), InitError>)
        ensures
            old(self).is_ready() ==> r is Ok && *final(self) == *old(self),
            !old(self).is_ready() ==> {
                &&& (r is Ok <==> {
                    &&& !has_duplicate_bundle_name(bundles@)
                    &&& all_dependencies_present(bundles@)
                    &&& !has_dependency_cycle(bundles@)
                })
                &&& (r is Err ==> !final(self).is_ready())
                &&& (r is Ok ==> {
                    &&& final(self).is_ready()
                    &&& reordering_of(final(self).installed(), bundles@)
                    &&& dependency_ordered(final(self).installed())
                })
                &&& (r is Err ==> match r->Err_0 {
                    InitError::DuplicateBundleName { name } => {
                        &&& has_duplicate_bundle_name(bundles@)
                        &&& exists|i: int, j: int|
                            0 <= i < j < bundles@.len() && (#[trigger] bundles@[i]).name@
                                == (#[trigger] bundles@[j]).name@ && name@ == bundles@[j].name@
                    },
                    InitError::MissingDependency { name } => {
                        &&& !has_duplicate_bundle_name(bundles@)
                        &&& exists|i: int, d: int|
                            {
                                &&& 0 <= i < bundles@.len()
                                &&& 0 <= d < bundles@[i].dependencies@.len()
                                &&& name@ == (#[trigger] bundles@[i].dependencies@[d])@
                                &&& !name_present(bundles@, bundles@[i].dependencies@[d]@)
                            }
                    },
                    InitError::DependencyCycle => {
                        &&& !has_duplicate_bundle_name(bundles@)
                        &&& all_dependencies_present(bundles@)
                        &&& has_dependency_cycle(bundles@)
                    },
                })
            },
    {
        if self.state.is_some() {
            return Ok(());
        }
        match find_duplicate_bundle_name(&bundles) {
            Some(name) => {
                return Err(InitError::DuplicateBundleName { name });
            },
            None => {},
        }
        match find_missing_dependency(&bundles) {
            Some(name) => {
                return Err(InitError::MissingDependency { name });
            },
            None => {},
        }
        match plan_order(&bundles) {
            Ok(order) => {
                let ghost given = bundles@;
                let ghost ord = order@;
                *self = SapphillonRuntime { state: Some(ContextState { bundles, order }) };
                proof {
                    let inst = self.installed();
                    assert(inst.len() == given.len());
                    assert(forall|p: int| 0 <= p < inst.len() ==> #[trigger] inst[p] == given[ord[p] as int]);
                    assert({
                        &&& ord.len() == given.len()
                        &&& inst.len() == given.len()
                        &&& ord.no_duplicates()
                        &&& forall|p: int| 0 <= p < ord.len() ==> (#[trigger] ord[p]) < given.len()
                        &&& forall|p: int| 0 <= p < inst.len() ==> #[trigger] inst[p] == given[ord[p] as int]
                    });
                    assert(reordering_of(inst, given));
                    assert forall|p: int, d: int|
                        0 <= p < inst.len() && 0 <= d < inst[p].dependencies@.len() implies
                        #[trigger] dep_before(inst, p, d) by {
                        assert(placed_after_deps(given, ord, p, d));
                        let q = choose|q: int|
                            0 <= q < p && given[(#[trigger] ord[q]) as int].name@
                                == given[ord[p] as int].dependencies@[d]@;
                        assert(inst[q].name@ == inst[p].dependencies@[d]@);
                        assert(dep_before(inst, p, d));
                    }
                    assert(dependency_ordered(inst));
                }
                Ok(())
            },
            Err(e) => Err(e),
        }
    }

    /// The names of the installed bundles, in installation order; empty
    /// while the context is uninitialized.
    #[verifier::loop_isolation(false)]
    pub fn installed_names(&self) -> (r: Vec<String>)
        ensures
            self.is_ready() ==> {
                &&& r@.len() == self.installed().len()
                &&& forall|p: int|
                    0 <= p < r@.len() ==> (#[trigger] r@[p])@ == self.installed()[p].name@
            },
            !self.is_ready() ==> r@.len() == 0,
    {
        proof {
            use_type_invariant(self);
        }
        match &self.state {
            None => Vec::new(),
            Some(st) => {
                let mut out: Vec<String> = Vec::new();
                let mut p: usize = 0;
                while p < st.order.len()
                    invariant
                        out@.len() == p,
                        0 <= p <= st.order@.len(),
                        forall|q: int|
                            0 <= q < p ==> (#[trigger] out@[q])@
                                == st.bundles@[st.order@[q] as int].name@,
                    decreases st.order@.len() - p,
                {
                    out.push(st.bundles[st.order[p]].name.clone());
                    p = p + 1;
                }
                out
            },
        }
    }

    /// Resolves an installed operation by name, as the engine's host-call
    /// surface does when a script invokes it: bundles are searched in
    /// installation order, and within a bundle in declaration order.
    /// Yields nothing on an uninitialized context or an unknown name.
    #[verifier::loop_isolation(false)]
    pub fn find_operation(&self, name: &String) -> (r: Option<&HostOperation>)
        ensures
            self.is_ready() ==> (r is Some <==> context_has_operation(self.installed(), name@)),
            !self.is_ready() ==> r is None,
            r is Some ==> {
                &&& r->0.name@ == name@
                &&& exists|p: int, k: int|
                    0 <= p < self.installed().len() && 0 <= k
                        < self.installed()[p].operations@.len()
                        && *r->0 == (#[trigger] self.installed()[p].operations@[k])
            },
    {
        proof {
            use_type_invariant(self);
        }
        match &self.state {
            None => None,
            Some(st) => {
                let mut p: usize = 0;
                while p < st.order.len()
                    invariant
                        0 <= p <= st.order@.len(),
                        forall|p2: int, k: int|
                            0 <= p2 < p && 0 <= k < self.installed()[p2].operations@.len()
                                ==> (#[trigger] self.installed()[p2].operations@[k]).name@
                                != name@,
                    decreases st.order@.len() - p,
                {
                    let bundle = &st.bundles[st.order[p]];
                    proof {
                        assert(self.installed()[p as int] == *bundle);
                    }
                    let mut k: usize = 0;
                    while k < bundle.operations.len()
                        invariant
                            0 <= k <= bundle.operations@.len(),
                            0 <= p < st.order@.len(),
                            bundle == &st.bundles@[st.order@[p as int] as int],
                            forall|k2: int|
                                0 <= k2 < k ==> (#[trigger] bundle.operations@[k2]).name@
                                    != name@,
                        decreases bundle.operations@.len() - k,
                    {
                        if bundle.operations[k].name == *name {
                            proof {
                                assert(context_has_operation(self.installed(), name@));
                            }
                            return Some(&bundle.operations[k]);
                        }
                        k = k + 1;
                    }
                    p = p + 1;
                }
                proof {
                    if context_has_operation(self.installed(), name@) {
                        let (p2, k) = choose|p2: int, k: int|
                            0 <= p2 < self.installed().len() && 0 <= k
                                < self.installed()[p2].operations@.len()
                                && (#[trigger] self.installed()[p2].operations@[k]).name@
                                == name@;
                        assert(self.installed()[p2].operations@[k].name@ != name@);
                    }
                }
                None
            },
        }
    }

    /// Gate of one script run: succeeds with the exact request to hand to
    /// the engine when the context is ready, and fails fast with
    /// `NotInitialized` when it is not. The context itself is untouched.
    pub fn prepare_run(&self, script: &str, module_id: &str) -> (r: Result<
        ScriptExecutionRequest,
        EngineError,
    >)
        ensures
            r is Ok <==> self.is_ready(),
            r is Ok ==> r->Ok_0.script@ == script@ && r->Ok_0.module_id@ == module_id@,
            r is Err ==> r->Err_0 is NotInitialized,
    {
        if self.state.is_some() {
            Ok(
                ScriptExecutionRequest {
                    script: script.to_owned(),
                    module_id: module_id.to_owned(),
                },
            )
        } else {
            Err(EngineError::NotInitialized)
        }
    }

    /// Turns the engine's reported outcome for one run into the caller's
    /// result: success exactly when the engine completed the script, and
    /// the engine's own diagnostic otherwise. Takes the context by shared
    /// reference: no outcome, failure included, can change the installed
    /// state, so later, independent runs are unaffected.
    pub fn complete_run(&self, outcome: RunOutcome) -> (r: Result<(), EngineError>)
        requires
            self.is_ready(),
        ensures
            r is Ok <==> outcome is Success,
            outcome matches RunOutcome::Failure { message, position } ==> r == Err::<
                (),
                EngineError,
            >(EngineError::Script { message, position }),
    {
        match outcome {
            RunOutcome::Success => Ok(()),
            RunOutcome::Failure { message, position } => {
                Err(EngineError::Script { message, position })
            },
        }
    }
}

impl Default for SapphillonRuntime {
    /// Same as `new`: an uninitialized context.
    fn default() -> (r: Self)
        ensures
            !r.is_ready(),
    {
        SapphillonRuntime::new()
    }
}

/// Ephemeral execution: builds one bundle named `ext` from the given
/// operations, constructs a fresh context with only that bundle
/// installed, and fixes the request that runs the script under the
/// module identifier `workflow.js`. Fails exactly when an operation name
/// is empty or two operations share a name. The caller drives the
/// engine with the returned request and discards the context afterwards,
/// so no state persists between calls.
pub fn run_script(script: &str, operations: Vec<HostOperation>) -> (r: Result<
    (SapphillonRuntime, ScriptExecutionRequest),
    BundleError,
>)
    ensures
        r is Ok <==> !has_duplicate_name(operations@) && all_names_nonempty(operations@),
        r is Ok ==> {
            &&& r->Ok_0.0.is_ready()
            &&& r->Ok_0.0.installed().len() == 1
            &&& r->Ok_0.0.installed()[0].name@ == "ext"@
            &&& r->Ok_0.0.installed()[0].operations@ == operations@
            &&& r->Ok_0.0.installed()[0].dependencies@.len() == 0
            &&& r->Ok_0.0.installed()[0].resources@.len() == 0
            &&& r->Ok_0.1.script@ == script@
            &&& r->Ok_0.1.module_id@ == "workflow.js"@
        },
        r is Err ==> match r->Err_0 {
            BundleError::DuplicateOperationName { name: taken } => exists|i: int, j: int|
                {
                    &&& 0 <= i < j < operations@.len()
                    &&& (#[trigger] operations@[i]).name@ == (#[trigger] operations@[j]).name@
                    &&& taken@ == operations@[j].name@
                },
            BundleError::EmptyOperationName => exists|i: int|
                0 <= i < operations@.len() && (#[trigger] operations@[i]).name@.len() == 0,
        },
{
    let bundle = match ExtensionBundle::build(
        "ext".to_owned(),
        operations,
        Vec::new(),
        Vec::new(),
    ) {
        Ok(b) => b,
        Err(e) => {
            return Err(e);
        },
    };
    let mut bundles: Vec<ExtensionBundle> = Vec::new();
    bundles.push(bundle);
    let mut order: Vec<usize> = Vec::new();
    order.push(0);
    proof {
        assert(valid_order(bundles@, order@)) by {
            assert(order@.no_duplicates());
            assert forall|p: int, d: int|
                0 <= p < order@.len() && 0 <= d < bundles@[order@[p] as int].dependencies@.len()
                    implies #[trigger] placed_after_deps(bundles@, order@, p, d) by {
                assert(bundles@[0].dependencies@.len() == 0);
            }
        }
    }
    let ctx = SapphillonRuntime { state: Some(ContextState { bundles, order }) };
    let request = ScriptExecutionRequest {
        script: script.to_owned(),
        module_id: "workflow.js".to_owned(),
    };
    Ok((ctx, request))
}

} // verus!
