//! How signal spreads from each tile to its unoccupied neighbors.
//!
//! One pass of diffusion is a function of the field before the pass alone:
//! every tile sends a fixed share of what it held to each of its unoccupied
//! neighbors, all at once.

use crate::geometry::{MapGeometry, TilePos};
use crate::signal_map::{lists_strengths, SignalMap};
use crate::strength::{clamped, max_units, scaled, Fraction, SignalStrength};
use vstd::prelude::*;

verus! {

/// The number above the line of the fraction of the signal in each tile that
/// moves to each unoccupied neighbor in one pass.
pub const DIFFUSION_NUMERATOR: u64 = 1;

/// The number below the line of that fraction.
///
/// A tile has up to six neighbors, so the fraction must stay below one sixth:
/// a tile must never send away more than it holds.
pub const DIFFUSION_DENOMINATOR: u64 = 10;

/// The units that a tile holding `units` sends to each unoccupied neighbor.
pub open spec fn share(units: nat) -> nat {
    scaled(units, DIFFUSION_NUMERATOR as nat, DIFFUSION_DENOMINATOR as nat)
}

/// The units that `field` holds at `pos`: zero where it has no entry.
pub open spec fn strength_in(field: Map<TilePos, nat>, pos: TilePos) -> nat {
    if field.contains_key(pos) {
        field[pos]
    } else {
        0
    }
}

/// The units that leave `pos` in one pass: one share for each unoccupied
/// neighbor.
pub open spec fn outflow(field: Map<TilePos, nat>, map_geometry: &MapGeometry, pos: TilePos) -> nat {
    map_geometry.empty_neighbors_of(pos).len() * share(strength_in(field, pos))
}

/// The units that reach `pos` from its neighbor in `direction`, were `pos`
/// unoccupied: that neighbor's share, or nothing where the map ends.
pub open spec fn inflow_from(
    field: Map<TilePos, nat>,
    map_geometry: &MapGeometry,
    pos: TilePos,
    direction: int,
) -> nat {
    match map_geometry.spec_neighbor(pos, direction) {
        Some(source) => share(strength_in(field, source)),
        None => 0,
    }
}

/// The units that reach `pos` in one pass: the share of each neighbor, or
/// nothing if `pos` is occupied.
pub open spec fn inflow(field: Map<TilePos, nat>, map_geometry: &MapGeometry, pos: TilePos) -> nat {
    if map_geometry.occupied(pos) {
        0
    } else {
        inflow_from(field, map_geometry, pos, 0) + inflow_from(field, map_geometry, pos, 1)
            + inflow_from(field, map_geometry, pos, 2) + inflow_from(field, map_geometry, pos, 3)
            + inflow_from(field, map_geometry, pos, 4) + inflow_from(field, map_geometry, pos, 5)
    }
}

/// Whether a neighbor of `pos` has an entry in `field` and `pos` is
/// unoccupied, so that a pass gives `pos` an entry.
pub open spec fn receives(field: Map<TilePos, nat>, map_geometry: &MapGeometry, pos: TilePos) -> bool {
    !map_geometry.occupied(pos) && exists|source: TilePos|
        field.contains_key(source) && #[trigger] map_geometry.adjacent(pos, source)
}

/// The units at `pos` after one pass over `field`.
pub open spec fn diffused(field: Map<TilePos, nat>, map_geometry: &MapGeometry, pos: TilePos) -> nat {
    clamped(
        strength_in(field, pos) - outflow(field, map_geometry, pos) + inflow(
            field,
            map_geometry,
            pos,
        ),
    )
}

/// Six shares of a strength are no more than the strength.
pub proof fn lemma_six_shares(units: nat)
    ensures
        6 * share(units) <= units,
{
}

/// A greater strength has a share that is no smaller.
pub proof fn lemma_share_monotone(less: nat, more: nat)
    requires
        less <= more,
    ensures
        share(less) <= share(more),
{
    assert((less * 1) / 10 <= (more * 1) / 10) by (nonlinear_arith)
        requires
            less <= more,
    ;
}

/// No tile sends away more than it holds.
pub proof fn lemma_outflow_bounded(field: Map<TilePos, nat>, map_geometry: &MapGeometry, pos: TilePos)
    ensures
        outflow(field, map_geometry, pos) <= strength_in(field, pos),
{
    map_geometry.lemma_neighbors(pos);
    let count = map_geometry.empty_neighbors_of(pos).len();
    let part = share(strength_in(field, pos));
    lemma_six_shares(strength_in(field, pos));
    assert(count * part <= 6 * part) by (nonlinear_arith)
        requires
            count <= 6,
    ;
}

/// A tile that holds nothing sends nothing away.
pub proof fn lemma_no_outflow(field: Map<TilePos, nat>, map_geometry: &MapGeometry, pos: TilePos)
    requires
        strength_in(field, pos) == 0,
    ensures
        outflow(field, map_geometry, pos) == 0,
{
}

/// What reaches a tile is at most six shares of the greatest strength in
/// the field.
pub proof fn lemma_inflow_bounded(
    field: Map<TilePos, nat>,
    map_geometry: &MapGeometry,
    pos: TilePos,
    bound: nat,
)
    requires
        forall|tile: TilePos| field.contains_key(tile) ==> #[trigger] field[tile] <= bound,
    ensures
        inflow(field, map_geometry, pos) <= 6 * share(bound),
        inflow(field, map_geometry, pos) <= bound,
{
    assert forall|direction: int| #[trigger]
        inflow_from(field, map_geometry, pos, direction) <= share(bound) by {
        match map_geometry.spec_neighbor(pos, direction) {
            Some(source) => {
                lemma_share_monotone(strength_in(field, source), bound);
            },
            None => {},
        }
    }
    lemma_six_shares(bound);
}

/// What one more source adds to the units that reach `pos` from `direction`.
proof fn lemma_inflow_from_step(
    field: Map<TilePos, nat>,
    map_geometry: &MapGeometry,
    done: Set<TilePos>,
    tile: TilePos,
    pos: TilePos,
    direction: int,
)
    requires
        !done.contains(tile),
    ensures
        inflow_from(field.restrict(done.insert(tile)), map_geometry, pos, direction) == inflow_from(
            field.restrict(done),
            map_geometry,
            pos,
            direction,
        ) + (if map_geometry.spec_neighbor(pos, direction) == Some(tile) {
            share(strength_in(field, tile))
        } else {
            0
        }),
{
}

/// What one more source adds to a field that is taken into account source by
/// source: the source sends its share to each of its unoccupied neighbors,
/// and loses one share for each.
proof fn lemma_stage_step(
    field: Map<TilePos, nat>,
    map_geometry: &MapGeometry,
    done: Set<TilePos>,
    tile: TilePos,
    pos: TilePos,
)
    requires
        !done.contains(tile),
        field.contains_key(tile),
    ensures
        inflow(field.restrict(done.insert(tile)), map_geometry, pos) == inflow(
            field.restrict(done),
            map_geometry,
            pos,
        ) + (if map_geometry.empty_neighbors_of(tile).contains(pos) {
            share(field[tile])
        } else {
            0
        }),
        receives(field.restrict(done.insert(tile)), map_geometry, pos) <==> receives(
            field.restrict(done),
            map_geometry,
            pos,
        ) || map_geometry.empty_neighbors_of(tile).contains(pos),
        outflow(field.restrict(done.insert(tile)), map_geometry, pos) == (if pos == tile {
            outflow(field, map_geometry, pos)
        } else {
            outflow(field.restrict(done), map_geometry, pos)
        }),
{
    let before = field.restrict(done);
    let after = field.restrict(done.insert(tile));
    map_geometry.lemma_neighbors(tile);
    map_geometry.lemma_adjacent_is_mutual(tile, pos);
    lemma_inflow_from_step(field, map_geometry, done, tile, pos, 0);
    lemma_inflow_from_step(field, map_geometry, done, tile, pos, 1);
    lemma_inflow_from_step(field, map_geometry, done, tile, pos, 2);
    lemma_inflow_from_step(field, map_geometry, done, tile, pos, 3);
    lemma_inflow_from_step(field, map_geometry, done, tile, pos, 4);
    lemma_inflow_from_step(field, map_geometry, done, tile, pos, 5);
    if map_geometry.adjacent(pos, tile) {
        let d = choose|d: int|
            0 <= d < 6 && #[trigger] map_geometry.spec_neighbor(pos, d) == Some(tile);
        map_geometry.lemma_directions_differ(pos, d, 0);
        map_geometry.lemma_directions_differ(pos, d, 1);
        map_geometry.lemma_directions_differ(pos, d, 2);
        map_geometry.lemma_directions_differ(pos, d, 3);
        map_geometry.lemma_directions_differ(pos, d, 4);
        map_geometry.lemma_directions_differ(pos, d, 5);
    } else {
        assert(map_geometry.spec_neighbor(pos, 0) != Some(tile));
        assert(map_geometry.spec_neighbor(pos, 1) != Some(tile));
        assert(map_geometry.spec_neighbor(pos, 2) != Some(tile));
        assert(map_geometry.spec_neighbor(pos, 3) != Some(tile));
        assert(map_geometry.spec_neighbor(pos, 4) != Some(tile));
        assert(map_geometry.spec_neighbor(pos, 5) != Some(tile));
    }
    if receives(before, map_geometry, pos) {
        let source = choose|source: TilePos|
            before.contains_key(source) && #[trigger] map_geometry.adjacent(pos, source);
        assert(after.contains_key(source));
    }
    if map_geometry.empty_neighbors_of(tile).contains(pos) {
        assert(after.contains_key(tile) && map_geometry.adjacent(pos, tile));
    }
    if receives(after, map_geometry, pos) {
        let source = choose|source: TilePos|
            after.contains_key(source) && #[trigger] map_geometry.adjacent(pos, source);
        if source != tile {
            assert(before.contains_key(source));
        }
    }
}

/// The fraction of the signal in each tile that moves to each unoccupied
/// neighbor in one pass.
pub fn diffusion_fraction() -> (fraction: Fraction)
    ensures
        fraction.num() == DIFFUSION_NUMERATOR,
        fraction.den() == DIFFUSION_DENOMINATOR,
{
    Fraction::known(DIFFUSION_NUMERATOR, DIFFUSION_DENOMINATOR)
}

/// Stages what `tile` sends away: `amount` to each of its unoccupied
/// neighbors, recorded in `addition`, and as much taken from `tile` for each
/// of them, recorded in `removal`.
fn stage_tile(
    removal: &mut SignalMap,
    addition: &mut SignalMap,
    tile: TilePos,
    amount: SignalStrength,
    map_geometry: &MapGeometry,
)
    requires
        old(removal).wf(),
        old(addition).wf(),
        old(removal).strength_at(tile) + 6 * amount@ <= max_units(),
        forall|pos: TilePos|
            map_geometry.empty_neighbors_of(tile).contains(pos) ==> #[trigger] old(
                addition,
            ).strength_at(pos) + amount@ <= max_units(),
    ensures
        final(removal).wf(),
        final(addition).wf(),
        forall|pos: TilePos| #[trigger]
            final(removal).has(pos) ==> old(removal).has(pos) || pos == tile,
        forall|pos: TilePos| #[trigger]
            final(removal).strength_at(pos) == old(removal).strength_at(pos) + (if pos == tile {
                map_geometry.empty_neighbors_of(tile).len() * amount@
            } else {
                0
            }),
        forall|pos: TilePos| #[trigger]
            final(addition).has(pos) <==> old(addition).has(pos) || map_geometry.empty_neighbors_of(
                tile,
            ).contains(pos),
        forall|pos: TilePos| #[trigger]
            final(addition).strength_at(pos) == old(addition).strength_at(pos) + (
            if map_geometry.empty_neighbors_of(tile).contains(pos) {
                amount@
            } else {
                0
            }),
{
    let ghost removal_before = *removal;
    let ghost addition_before = *addition;
    let neighbors = tile.empty_neighbors(map_geometry);
    proof {
        map_geometry.lemma_neighbors(tile);
    }
    let mut j: usize = 0;
    while j < neighbors.len()
        invariant
            j <= neighbors.len() <= 6,
            neighbors@ == map_geometry.empty_neighbors_of(tile),
            neighbors@.no_duplicates(),
            removal.wf(),
            addition.wf(),
            removal_before.strength_at(tile) + 6 * amount@ <= max_units(),
            forall|pos: TilePos|
                neighbors@.contains(pos) ==> #[trigger] addition_before.strength_at(pos) + amount@
                    <= max_units(),
            forall|pos: TilePos| #[trigger]
                removal.has(pos) ==> removal_before.has(pos) || pos == tile,
            forall|pos: TilePos| #[trigger]
                removal.strength_at(pos) == removal_before.strength_at(pos) + (if pos == tile {
                    j * amount@
                } else {
                    0
                }),
            forall|pos: TilePos| #[trigger]
                addition.has(pos) <==> addition_before.has(pos) || neighbors@.take(j as int).contains(
                    pos,
                ),
            forall|pos: TilePos| #[trigger]
                addition.strength_at(pos) == addition_before.strength_at(pos) + (if neighbors@.take(
                    j as int,
                ).contains(pos) {
                    amount@
                } else {
                    0
                }),
        decreases neighbors.len() - j,
    {
        let neighboring_tile = neighbors[j];
        proof {
            let earlier = neighbors@.take(j as int);
            let later = neighbors@.take(j + 1);
            assert(later == earlier.push(neighboring_tile));
            assert forall|pos: TilePos|
                later.contains(pos) <==> (earlier.contains(pos) || pos == neighboring_tile) by {
                if earlier.contains(pos) {
                    let k = choose|k: int| 0 <= k < earlier.len() && earlier[k] == pos;
                    assert(later[k] == pos);
                }
                if pos == neighboring_tile {
                    assert(later[j as int] == pos);
                }
            }
            if earlier.contains(neighboring_tile) {
                let k = choose|k: int| 0 <= k < earlier.len() && earlier[k] == neighboring_tile;
                assert(neighbors@[k] == neighbors@[j as int]);
            }
            assert(neighbors@.contains(neighboring_tile));
            assert(j * amount@ + amount@ == (j + 1) * amount@) by (nonlinear_arith);
            assert((j + 1) * amount@ <= 6 * amount@) by (nonlinear_arith)
                requires
                    j + 1 <= 6,
            ;
        }
        let ghost removal_mid = *removal;
        let ghost addition_mid = *addition;
        assert(removal_mid.strength_at(tile) == removal_before.strength_at(tile) + j * amount@);
        assert(addition_mid.strength_at(neighboring_tile) == addition_before.strength_at(
            neighboring_tile,
        ));
        removal.add_signal(tile, amount);
        addition.add_signal(neighboring_tile, amount);
        proof {
            assert forall|pos: TilePos| #[trigger] removal.has(pos) implies removal_before.has(pos)
                || pos == tile by {
                if pos != tile {
                    assert(removal_mid.has(pos));
                }
            }
            assert forall|pos: TilePos| #[trigger]
                removal.strength_at(pos) == removal_before.strength_at(pos) + (if pos == tile {
                    (j + 1) * amount@
                } else {
                    0
                }) by {
                assert(removal_mid.strength_at(pos) == removal_before.strength_at(pos) + (if pos
                    == tile {
                    j * amount@
                } else {
                    0
                }));
            }
            assert forall|pos: TilePos| #[trigger]
                addition.has(pos) <==> addition_before.has(pos) || neighbors@.take(j + 1).contains(
                    pos,
                ) by {
                assert(addition_mid.has(pos) <==> addition_before.has(pos) || neighbors@.take(
                    j as int,
                ).contains(pos));
            }
            assert forall|pos: TilePos| #[trigger]
                addition.strength_at(pos) == addition_before.strength_at(pos) + (if neighbors@.take(
                    j + 1,
                ).contains(pos) {
                    amount@
                } else {
                    0
                }) by {
                assert(addition_mid.strength_at(pos) == addition_before.strength_at(pos) + (
                if neighbors@.take(j as int).contains(pos) {
                    amount@
                } else {
                    0
                }));
            }
        }
        j += 1;
    }
    proof {
        assert(neighbors@.take(j as int) == neighbors@);
    }
}

/// Computes, from `map` alone, what one pass takes from each tile and what
/// it gives to each tile. The first map returned holds what is taken, the
/// second what is given.
fn stage(map: &SignalMap, map_geometry: &MapGeometry) -> (staged: (SignalMap, SignalMap))
    requires
        map.wf(),
    ensures
        staged.0.wf(),
        staged.1.wf(),
        forall|pos: TilePos| #[trigger] staged.0.has(pos) ==> map.has(pos),
        forall|pos: TilePos| #[trigger]
            staged.0.strength_at(pos) == outflow(map@, map_geometry, pos),
        forall|pos: TilePos| #[trigger] staged.1.has(pos) <==> receives(map@, map_geometry, pos),
        forall|pos: TilePos| #[trigger]
            staged.1.strength_at(pos) == inflow(map@, map_geometry, pos),
{
    let mut addition_map = SignalMap::new();
    let mut removal_map = SignalMap::new();
    let entries = map.entries();
    let ghost field = map@;
    let ghost mut done: Set<TilePos> = Set::empty();
    proof {
        map.lemma_bounded();
        assert(field.restrict(done) =~= Map::<TilePos, nat>::empty());
        assert(share(0) == 0);
        assert forall|pos: TilePos| !receives(field.restrict(done), map_geometry, pos) by {}
        assert forall|pos: TilePos| outflow(field.restrict(done), map_geometry, pos) == 0 by {
            lemma_no_outflow(field.restrict(done), map_geometry, pos);
        }
    }
    let mut i: usize = 0;
    while i < entries.len()
        invariant
            i <= entries.len(),
            field == map@,
            lists_strengths(entries@, field),
            forall|pos: TilePos| field.contains_key(pos) ==> #[trigger] field[pos] <= max_units(),
            removal_map.wf(),
            addition_map.wf(),
            forall|pos: TilePos|
                done.contains(pos) <==> exists|j: int| 0 <= j < i && #[trigger] entries[j].0 == pos,
            forall|pos: TilePos| #[trigger] removal_map.has(pos) ==> field.contains_key(pos),
            forall|pos: TilePos| #[trigger]
                removal_map.strength_at(pos) == outflow(field.restrict(done), map_geometry, pos),
            forall|pos: TilePos| #[trigger]
                addition_map.has(pos) <==> receives(field.restrict(done), map_geometry, pos),
            forall|pos: TilePos| #[trigger]
                addition_map.strength_at(pos) == inflow(field.restrict(done), map_geometry, pos),
        decreases entries.len() - i,
    {
        let (source_tile, held) = entries[i];
        let amount_to_send_to_each_neighbor = held.mul(diffusion_fraction());
        let ghost removal_mid = removal_map;
        let ghost addition_mid = addition_map;
        let ghost earlier = done;
        proof {
            assert(entries[i as int].0 == source_tile);
            assert(field.contains_key(source_tile) && field[source_tile] == held@);
            assert(amount_to_send_to_each_neighbor@ == share(field[source_tile]));
            if earlier.contains(source_tile) {
                let j = choose|j: int| 0 <= j < i && #[trigger] entries[j].0 == source_tile;
                assert(entries[j].0 == entries[i as int].0);
            }
            done = earlier.insert(source_tile);
            assert forall|pos: TilePos|
                done.contains(pos) <==> exists|j: int|
                    0 <= j < i + 1 && #[trigger] entries[j].0 == pos by {
                if earlier.contains(pos) {
                    let j = choose|j: int| 0 <= j < i && #[trigger] entries[j].0 == pos;
                    assert(entries[j].0 == pos);
                }
                if exists|j: int| 0 <= j < i + 1 && #[trigger] entries[j].0 == pos {
                    let j = choose|j: int| 0 <= j < i + 1 && #[trigger] entries[j].0 == pos;
                    if j < i {
                        assert(entries[j].0 == pos);
                        assert(earlier.contains(pos));
                    }
                }
            }
            lemma_six_shares(field[source_tile]);
            assert(strength_in(field.restrict(earlier), source_tile) == 0);
            assert(share(0) == 0);
            assert(removal_mid.strength_at(source_tile) == 0) by {
                lemma_no_outflow(field.restrict(earlier), map_geometry, source_tile);
            }
            assert forall|pos: TilePos|
                map_geometry.empty_neighbors_of(source_tile).contains(pos) implies #[trigger]
                addition_mid.strength_at(pos) + amount_to_send_to_each_neighbor@ <= max_units() by {
                lemma_stage_step(field, map_geometry, earlier, source_tile, pos);
                lemma_inflow_bounded(field.restrict(done), map_geometry, pos, max_units());
            }
        }
        stage_tile(
            &mut removal_map,
            &mut addition_map,
            source_tile,
            amount_to_send_to_each_neighbor,
            map_geometry,
        );
        proof {
            assert forall|pos: TilePos| #[trigger] removal_map.has(pos) implies field.contains_key(
                pos,
            ) by {
                if pos != source_tile {
                    assert(removal_mid.has(pos));
                }
            }
            assert forall|pos: TilePos| #[trigger]
                removal_map.strength_at(pos) == outflow(field.restrict(done), map_geometry, pos) by {
                lemma_stage_step(field, map_geometry, earlier, source_tile, pos);
                assert(removal_mid.strength_at(pos) == outflow(
                    field.restrict(earlier),
                    map_geometry,
                    pos,
                ));
            }
            assert forall|pos: TilePos| #[trigger]
                addition_map.has(pos) <==> receives(field.restrict(done), map_geometry, pos) by {
                lemma_stage_step(field, map_geometry, earlier, source_tile, pos);
                assert(addition_mid.has(pos) <==> receives(
                    field.restrict(earlier),
                    map_geometry,
                    pos,
                ));
            }
            assert forall|pos: TilePos| #[trigger]
                addition_map.strength_at(pos) == inflow(field.restrict(done), map_geometry, pos) by {
                lemma_stage_step(field, map_geometry, earlier, source_tile, pos);
                assert(addition_mid.strength_at(pos) == inflow(
                    field.restrict(earlier),
                    map_geometry,
                    pos,
                ));
            }
        }
        i += 1;
    }
    proof {
        assert(field.restrict(done) =~= field);
    }
    (removal_map, addition_map)
}

/// Takes from each tile of `map` what `removal` holds for it, stopping at
/// zero.
fn subtract_all(map: &mut SignalMap, removal: &SignalMap)
    requires
        old(map).wf(),
        removal.wf(),
    ensures
        final(map).wf(),
        forall|pos: TilePos| #[trigger]
            final(map).has(pos) <==> old(map).has(pos) || removal.has(pos),
        forall|pos: TilePos| #[trigger]
            final(map).strength_at(pos) == clamped(
                old(map).strength_at(pos) - removal.strength_at(pos),
            ),
{
    let ghost before = *map;
    let entries = removal.entries();
    let ghost mut seen: Set<TilePos> = Set::empty();
    proof {
        before.lemma_bounded();
    }
    let mut i: usize = 0;
    while i < entries.len()
        invariant
            i <= entries.len(),
            lists_strengths(entries@, removal@),
            map.wf(),
            forall|pos: TilePos|
                seen.contains(pos) <==> exists|j: int| 0 <= j < i && #[trigger] entries[j].0 == pos,
            forall|pos: TilePos| #[trigger] map.has(pos) <==> before.has(pos) || seen.contains(pos),
            forall|pos: TilePos| #[trigger]
                map.strength_at(pos) == (if seen.contains(pos) {
                    clamped(before.strength_at(pos) - removal.strength_at(pos))
                } else {
                    before.strength_at(pos)
                }),
        decreases entries.len() - i,
    {
        let (removal_pos, removal_strength) = entries[i];
        let ghost mid = *map;
        let ghost earlier = seen;
        proof {
            seen = earlier.insert(removal_pos);
        }
        map.subtract_signal(removal_pos, removal_strength);
        proof {
            assert forall|pos: TilePos| #[trigger]
                map.has(pos) <==> before.has(pos) || seen.contains(pos) by {
                assert(mid.has(pos) <==> before.has(pos) || earlier.contains(pos));
            }
            assert forall|pos: TilePos| #[trigger]
                map.strength_at(pos) == (if seen.contains(pos) {
                    clamped(before.strength_at(pos) - removal.strength_at(pos))
                } else {
                    before.strength_at(pos)
                }) by {
                assert(mid.strength_at(pos) == (if earlier.contains(pos) {
                    clamped(before.strength_at(pos) - removal.strength_at(pos))
                } else {
                    before.strength_at(pos)
                }));
            }
        }
        i += 1;
    }
}

/// Gives to each tile of `map` what `addition` holds for it, stopping at the
/// largest strength.
fn add_all(map: &mut SignalMap, addition: &SignalMap)
    requires
        old(map).wf(),
        addition.wf(),
    ensures
        final(map).wf(),
        forall|pos: TilePos| #[trigger]
            final(map).has(pos) <==> old(map).has(pos) || addition.has(pos),
        forall|pos: TilePos| #[trigger]
            final(map).strength_at(pos) == clamped(
                (old(map).strength_at(pos) + addition.strength_at(pos)) as int,
            ),
{
    let ghost before = *map;
    let entries = addition.entries();
    let ghost mut seen: Set<TilePos> = Set::empty();
    proof {
        before.lemma_bounded();
    }
    let mut i: usize = 0;
    while i < entries.len()
        invariant
            i <= entries.len(),
            lists_strengths(entries@, addition@),
            map.wf(),
            forall|pos: TilePos| #[trigger] before.strength_at(pos) <= max_units(),
            forall|pos: TilePos|
                seen.contains(pos) <==> exists|j: int| 0 <= j < i && #[trigger] entries[j].0 == pos,
            forall|pos: TilePos| #[trigger] map.has(pos) <==> before.has(pos) || seen.contains(pos),
            forall|pos: TilePos| #[trigger]
                map.strength_at(pos) == (if seen.contains(pos) {
                    clamped((before.strength_at(pos) + addition.strength_at(pos)) as int)
                } else {
                    before.strength_at(pos)
                }),
        decreases entries.len() - i,
    {
        let (addition_pos, addition_strength) = entries[i];
        let ghost mid = *map;
        let ghost earlier = seen;
        proof {
            seen = earlier.insert(addition_pos);
        }
        map.add_signal(addition_pos, addition_strength);
        proof {
            assert forall|pos: TilePos| #[trigger]
                map.has(pos) <==> before.has(pos) || seen.contains(pos) by {
                assert(mid.has(pos) <==> before.has(pos) || earlier.contains(pos));
            }
            assert forall|pos: TilePos| #[trigger]
                map.strength_at(pos) == (if seen.contains(pos) {
                    clamped((before.strength_at(pos) + addition.strength_at(pos)) as int)
                } else {
                    before.strength_at(pos)
                }) by {
                assert(mid.strength_at(pos) == (if earlier.contains(pos) {
                    clamped((before.strength_at(pos) + addition.strength_at(pos)) as int)
                } else {
                    before.strength_at(pos)
                }));
            }
        }
        i += 1;
    }
}

/// Spreads the signal of `map` between tiles: one pass of diffusion.
///
/// What is taken from each tile and what is given to each tile are computed
/// from the map as it was before the pass, and applied only then, so that
/// the outcome does not depend on the order in which tiles are visited.
pub fn diffuse_map(map: &mut SignalMap, map_geometry: &MapGeometry)
    requires
        old(map).wf(),
    ensures
        final(map).wf(),
        forall|pos: TilePos| #[trigger]
            final(map).has(pos) <==> old(map).has(pos) || receives(old(map)@, map_geometry, pos),
        forall|pos: TilePos| #[trigger]
            final(map).strength_at(pos) == diffused(old(map)@, map_geometry, pos),
{
    let ghost before = *map;
    let (removal_map, addition_map) = stage(map, map_geometry);
    // We cannot do this in one step, as we need to avoid bizarre iteration order dependencies
    subtract_all(map, &removal_map);
    add_all(map, &addition_map);
    proof {
        assert forall|pos: TilePos| #[trigger]
            map.strength_at(pos) == diffused(before@, map_geometry, pos) by {
            lemma_outflow_bounded(before@, map_geometry, pos);
        }
    }
}

} // verus!
