//! What holds of every consistent city, and of every run of years.

use crate::city::City;
use crate::institutions::Venture;
use crate::mind::Newcomer;
use crate::relations::RelationVerb;
use vstd::prelude::*;

verus! {

/// Symmetry.  In a consistent city, a symmetric kind holds both ways: `a`
/// holds `b` under it exactly if `b` holds `a` under it.
///
/// For partner, spouse and the late kinds this is stated of two living
/// citizens: a death leaves the dead with the edges they had, while the
/// survivor's edge turns into a late edge that nothing answers.
pub proof fn symmetry(city: &City, a: u128, b: u128, kind: RelationVerb)
    requires
        city.wf(),
        kind.symmetric(),
        kind.romantic() || kind.late() ==> city.living(a) && city.living(b),
    ensures
        city.related(a, kind, b) <==> city.related(b, kind, a),
{
    if city.related(a, kind, b) {
        assert(city.edge_ok(a, kind, b));
    }
    if city.related(b, kind, a) {
        assert(city.edge_ok(b, kind, a));
    }
}

/// Complement mirroring.  In a consistent city, `a` holds `b` as child
/// exactly if `b` holds `a` as parent, and likewise for every other pair of
/// complementary kinds: grandparent and grandchild, aunt or uncle and
/// niece or nephew.
pub proof fn complement_mirroring(city: &City, a: u128, b: u128, kind: RelationVerb)
    requires
        city.wf(),
        !kind.symmetric(),
    ensures
        city.related(a, kind, b) <==> city.related(b, kind.mirror_of(), a),
{
    if city.related(a, kind, b) {
        assert(city.edge_ok(a, kind, b));
    }
    if city.related(b, kind.mirror_of(), a) {
        assert(city.edge_ok(b, kind.mirror_of(), a));
    }
}

/// No self-relation.  In a consistent city nobody holds themselves under
/// any kind.
pub proof fn no_self_relation(city: &City, a: u128, kind: RelationVerb)
    requires
        city.wf(),
    ensures
        !city.related(a, kind, a),
{
    if city.related(a, kind, a) {
        assert(city.edge_ok(a, kind, a));
    }
}

/// One romance at a time.  In a monogamous city, whoever holds someone as
/// partner or spouse holds nobody else so, and nobody as both.
pub proof fn one_romance_at_a_time(
    city: &City,
    x: u128,
    first: RelationVerb,
    y: u128,
    second: RelationVerb,
    z: u128,
)
    requires
        city.monogamous(),
        first.romantic(),
        second.romantic(),
        city.related(x, first, y),
        city.related(x, second, z),
    ensures
        y == z,
        first == second,
{
}

/// Every edge of a consistent city leads to a citizen of the city.
pub proof fn no_dangling_edge(city: &City, a: u128, b: u128, kind: RelationVerb)
    requires
        city.wf(),
        city.related(a, kind, b),
    ensures
        city.has(b),
{
    assert(city.edge_ok(a, kind, b));
}

/// Symmetry after a year.  Whatever year ran and whatever was drawn in it,
/// a symmetric kind holds both ways at its end between any two who are
/// alive then, those born in the year among them.
pub proof fn symmetry_after_a_year(now: &City, before: &City, a: u128, b: u128, kind: RelationVerb)
    requires
        now.year_ran_from(before),
        kind.symmetric(),
        now.living(a),
        now.living(b),
    ensures
        now.related(a, kind, b) <==> now.related(b, kind, a),
{
    now.a_year_ends_in_order(before);
    symmetry(now, a, b, kind);
}

/// Complement mirroring after a year.  Whatever year ran, at its end `a`
/// holds `b` under a kind exactly if `b` holds `a` under its complement,
/// for all citizens, the dead and those born in the year among them.
pub proof fn mirroring_after_a_year(now: &City, before: &City, a: u128, b: u128, kind: RelationVerb)
    requires
        now.year_ran_from(before),
        !kind.symmetric(),
    ensures
        now.related(a, kind, b) <==> now.related(b, kind.mirror_of(), a),
{
    now.a_year_ends_in_order(before);
    complement_mirroring(now, a, b, kind);
}

/// No self-relation after a year.  Whatever year ran, at its end nobody
/// holds themselves under any kind.
pub proof fn no_self_relation_after_a_year(now: &City, before: &City, a: u128, kind: RelationVerb)
    requires
        now.year_ran_from(before),
    ensures
        !now.related(a, kind, a),
{
    now.a_year_ends_in_order(before);
    no_self_relation(now, a, kind);
}

/// Death monotonicity over a year.  Whatever year ran, everyone of before
/// is still there at its end, whoever was dead is dead, and the calendar
/// is one year on.
pub proof fn nobody_returns_in_a_year(now: &City, before: &City, a: u128)
    requires
        now.year_ran_from(before),
        before.has(a),
    ensures
        now.has(a),
        !before.mind(a).alive ==> !now.mind(a).alive,
        now.year == before.year + 1,
{
    now.a_year_ends_in_order(before);
    assert(City::a_year_older(&now.mind(a), &before.mind(a)));
}

/// Whether each city of the run is the city a year after the one before it.
pub open spec fn run_of_years(years: Seq<City>) -> bool {
    forall|i: int| 0 <= i < years.len() - 1 ==> (#[trigger] years[i + 1]).a_year_after(&years[i])
}

/// Death monotonicity.  Over any run of years, whoever is dead in one year
/// is still there, and dead, in every later year.
pub proof fn death_is_final(years: Seq<City>, sooner: int, later: int, a: u128)
    requires
        run_of_years(years),
        0 <= sooner <= later < years.len(),
        years[sooner].has(a),
        !years[sooner].mind(a).alive,
    ensures
        years[later].has(a),
        !years[later].mind(a).alive,
    decreases later - sooner,
{
    if sooner < later {
        death_is_final(years, sooner, later - 1, a);
        assert(years[later - 1 + 1].a_year_after(&years[later - 1]));
        assert(City::a_year_older(&years[later].mind(a), &years[later - 1].mind(a)));
    }
}

/// Over any run of years, whoever is alive at the end has aged one year
/// with every year of the run they were there for.
pub proof fn the_living_age_with_the_years(years: Seq<City>, sooner: int, later: int, a: u128)
    requires
        run_of_years(years),
        0 <= sooner <= later < years.len(),
        years[sooner].has(a),
        years[later].has(a) ==> years[later].mind(a).alive,
    ensures
        years[later].has(a),
        years[later].mind(a).age == years[sooner].mind(a).age + (later - sooner),
    decreases later - sooner,
{
    if sooner < later {
        assert(years[sooner + 1].a_year_after(&years[sooner]));
        assert(City::a_year_older(&years[sooner + 1].mind(a), &years[sooner].mind(a)));
        if !years[sooner + 1].mind(a).alive {
            death_is_final(years, sooner + 1, later, a);
        }
        the_living_age_with_the_years(years, sooner + 1, later, a);
    }
}

/// An institution goes only without staff.  Where a sweep removed an
/// institution, nobody on its roster was alive: once the dead were struck
/// off, the roster was empty.
pub proof fn only_the_unstaffed_go(now: &City, before: &City, institution: u128, a: u128)
    requires
        now.swept_from(before),
        before.has_institution(institution),
        !now.has_institution(institution),
        before.institution(institution).employs(a),
    ensures
        !before.mind(a).alive,
{
    if before.mind(a).alive {
        assert(before.has_living_staff(institution));
    }
}

/// An institution that keeps living staff survives the sweep, with
/// exactly its living staff.
pub proof fn the_staffed_stay(now: &City, before: &City, institution: u128, a: u128)
    requires
        now.swept_from(before),
        before.has_institution(institution),
        before.institution(institution).employs(a),
        before.mind(a).alive,
    ensures
        now.has_institution(institution),
        now.institution(institution).employs(a),
{
    assert(before.has_living_staff(institution));
}

/// Whoever is alive and still without work after a round of hiring was
/// out of ventures, or had a venture used that founded nothing: while
/// ventures are left and someone seeks work, fewer institutions were
/// founded than ventures were used.
pub proof fn a_seeker_means_a_venture_failed(
    now: &City,
    before: &City,
    ventures: Seq<Venture>,
    left: Seq<Venture>,
)
    requires
        now.staffed_from(before, ventures, left),
        now.someone_seeks_work(),
        left.len() > 0,
    ensures
        now.founded_since(before) < ventures.len() - left.len(),
{
    let x = choose|x: u128| now.living(x) && (#[trigger] now.mind(x)).employer is None;
    assert(now.seeking().contains(x));
    let one = Set::<u128>::empty().insert(x);
    assert(one.subset_of(now.seeking()));
    vstd::set_lib::lemma_len_subset(one, now.seeking());
}

/// Where two who are alive can pair, and neither can pair with anyone
/// else, a pass of the matcher makes them partners, both ways, and leaves
/// no social tie between them.
pub proof fn the_only_match_is_made(now: &City, before: &City, a: u128, b: u128)
    requires
        before.wf(),
        now.wf(),
        now.same_people(before),
        now.matched_from(before),
        now.nobody_left_to_pair(),
        before.living(a),
        before.living(b),
        before.can_pair(a, b),
        forall|c: u128| c != b ==> !#[trigger] before.can_pair(a, c),
        forall|c: u128| c != a ==> !#[trigger] before.can_pair(b, c),
    ensures
        now.related(a, RelationVerb::Partner, b),
        now.related(b, RelationVerb::Partner, a),
        !now.social_tie(a, b),
        !now.social_tie(b, a),
{
    before.mind(a).single_in_edges();
    before.mind(b).single_in_edges();
    now.mind(a).single_in_edges();
    now.mind(b).single_in_edges();
    assert(now.mind(a).same_but_relations(&before.mind(a)));
    assert(now.mind(b).same_but_relations(&before.mind(b)));
    assert(!before.related(a, RelationVerb::Partner, b));
    assert(!before.related(b, RelationVerb::Partner, a));
    if !now.related(a, RelationVerb::Partner, b) {
        assert forall|z: u128|
            !now.mind(a).related(RelationVerb::Partner, z) && !now.mind(a).related(
                RelationVerb::Spouse,
                z,
            ) by {
            if now.related(a, RelationVerb::Partner, z) {
                assert(now.newly_paired(before, a, z));
                assert(before.can_pair(a, z));
            }
            assert(now.related(a, RelationVerb::Spouse, z) <==> before.related(
                a,
                RelationVerb::Spouse,
                z,
            ));
        }
        assert forall|z: u128|
            !now.mind(b).related(RelationVerb::Partner, z) && !now.mind(b).related(
                RelationVerb::Spouse,
                z,
            ) by {
            if now.related(b, RelationVerb::Partner, z) {
                assert(now.newly_paired(before, b, z));
                assert(before.can_pair(b, z));
                assert(now.edge_ok(b, RelationVerb::Partner, a));
            }
            assert(now.related(b, RelationVerb::Spouse, z) <==> before.related(
                b,
                RelationVerb::Spouse,
                z,
            ));
        }
        assert(!now.newly_paired(before, a, b));
        assert(now.social_tie(a, b));
        assert(now.can_pair(a, b));
        assert(now.living(a));
    }
    assert(now.edge_ok(a, RelationVerb::Partner, b));
    assert(now.newly_paired(before, a, b));
    assert(now.newly_paired(before, b, a));
}

/// Whoever is born in a year of births joins one family.  The newborn
/// holds exactly two as parent, a couple of before, and exactly they hold
/// it as child; and it is a sibling, both ways, of every child that either
/// of them had.
pub proof fn a_newborn_joins_one_family(now: &City, before: &City, supply: Seq<Newcomer>, left: Seq<Newcomer>, c: u128)
    requires
        now.a_year_of_births_from(before, supply, left),
        now.has(c),
        !before.has(c),
    ensures
        exists|a: u128, b: u128|
            {
                &&& a != b
                &&& before.related(a, RelationVerb::Partner, b) || before.related(
                    a,
                    RelationVerb::Spouse,
                    b,
                )
                &&& #[trigger] now.family_of_newborn(c, before, a, b)
            },
{
    assert(now.born_to_a_couple_of(c, before));
    let (a, b) = choose|a: u128, b: u128| #[trigger] now.parents_of_newborn(c, before, a, b);
    assert(now.family_of_newborn(c, before, a, b));
}

/// A couple has one child a year at most: two who are born in one year of
/// births and hold the same two as parent are one.
pub proof fn one_birth_a_couple_a_year(
    now: &City,
    before: &City,
    supply: Seq<Newcomer>,
    left: Seq<Newcomer>,
    first: u128,
    second: u128,
    a: u128,
    b: u128,
)
    requires
        now.a_year_of_births_from(before, supply, left),
        !before.has(first),
        !before.has(second),
        a != b,
        now.related(first, RelationVerb::Parent, a),
        now.related(first, RelationVerb::Parent, b),
        now.related(second, RelationVerb::Parent, a),
        now.related(second, RelationVerb::Parent, b),
    ensures
        first == second,
{
    assert(now.one_child_a_couple(before));
}

/// Where all that partners or spouses in a city are one couple, a year of
/// births brings one newborn at most.
pub proof fn one_couple_one_newborn(
    now: &City,
    before: &City,
    supply: Seq<Newcomer>,
    left: Seq<Newcomer>,
    a: u128,
    b: u128,
    first: u128,
    second: u128,
)
    requires
        now.a_year_of_births_from(before, supply, left),
        forall|x: u128, k: RelationVerb, y: u128|
            k.romantic() && #[trigger] before.related(x, k, y) ==> (x == a && y == b) || (x == b
                && y == a),
        now.has(first),
        !before.has(first),
        now.has(second),
        !before.has(second),
    ensures
        first == second,
{
    assert(now.born_to_a_couple_of(first, before));
    assert(now.born_to_a_couple_of(second, before));
    let (p, q) = choose|p: u128, q: u128| #[trigger] now.parents_of_newborn(first, before, p, q);
    let (r, t) = choose|r: u128, t: u128| #[trigger] now.parents_of_newborn(second, before, r, t);
    assert(before.related(p, RelationVerb::Partner, q) || before.related(
        p,
        RelationVerb::Spouse,
        q,
    ));
    assert(before.related(r, RelationVerb::Partner, t) || before.related(
        r,
        RelationVerb::Spouse,
        t,
    ));
    assert(now.one_child_a_couple(before));
    assert(now.related(first, RelationVerb::Parent, a) && now.related(
        first,
        RelationVerb::Parent,
        b,
    ));
    assert(now.related(second, RelationVerb::Parent, a) && now.related(
        second,
        RelationVerb::Parent,
        b,
    ));
}

} // verus!
