//! What holds of the grid across its operations.
//!
//! Each law is stated over the model of the grid, in the terms in which
//! `Grid::insert`, `Grid::delete`, `Grid::query` and `Grid::clear` state what
//! they do, so that it applies to any run of those functions.
//!
//! The tables are direct-mapped, so two cells may share a bucket. The laws
//! hold all the same; where one needs an identifier to be new to the grid, it
//! asks that no bucket holds it.

use vstd::prelude::*;
use crate::counting::lemma_count_zero;
use crate::effects::{
    lemma_absorb_single,
    lemma_gather_contains,
    lemma_gather_once,
    lemma_insert_cells_at_most,
    lemma_insert_cells_done,
    lemma_insert_cells_indexed,
    lemma_insert_cells_others,
    lemma_insert_cells_room,
    lemma_insert_cells_shape,
    lemma_insert_cells_tags,
    lemma_record,
    lemma_remove_cells_clears,
    lemma_remove_cells_finds,
    lemma_remove_cells_others,
    lemma_remove_cells_shape,
    lemma_slots_in_range,
    lemma_store,
    lemma_store_occurrences,
    lemma_times_contains,
};
use crate::entries::{holds, lemma_holds_iff_occurs, occurrences};
use crate::geometry::{lemma_cells, lemma_span_wf, Entity, Query};
use crate::model::{absorb, falls_in, times, GridView};

verus! {

/// A query returns an identifier exactly where the bucket of some cell that
/// its region covers holds the identifier.
pub proof fn law_query_returns_what_it_reaches(g: GridView, query: Query, id: u32)
    requires
        g.wf(),
        query.in_bounds(),
    ensures
        g.query(query).contains(id) <==> g.reaches(query.span(g.shift), id),
{
    let span = query.span(g.shift);
    let cs = span.cells();
    lemma_span_wf(query, g.shift);
    lemma_cells(span);
    lemma_gather_contains(g, cs, span.is_single(), Seq::empty(), id);
    if g.reaches(span, id) {
        let c = choose|c: (u32, u32)| span.covers(c) && holds(#[trigger] g.bucket(c), id);
        assert(cs.contains(c));
        let k = choose|k: int| 0 <= k < cs.len() && cs[k] == c;
        assert(holds(g.bucket(cs[k]), id));
    }
    if exists|k: int| 0 <= k < cs.len() && holds(g.bucket(#[trigger] cs[k]), id) {
        let k = choose|k: int| 0 <= k < cs.len() && holds(g.bucket(#[trigger] cs[k]), id);
        assert(cs.contains(cs[k]));
        assert(span.covers(cs[k]));
    }
}

/// After a grid is cleared, a query over any region returns nothing, and the
/// tables have the slots that they had.
pub proof fn law_cleared_grid_returns_nothing(g: GridView, query: Query)
    requires
        g.wf(),
        query.in_bounds(),
    ensures
        g.cleared().wf(),
        g.cleared().is_empty(),
        g.cleared().same_shape(g),
        g.cleared().query(query) == Seq::<u32>::empty(),
{
    let cleared = g.cleared();
    let found = cleared.query(query);
    if found.len() > 0 {
        let id = found[0];
        assert(found.contains(id));
        law_query_returns_what_it_reaches(cleared, query, id);
        let c = choose|c: (u32, u32)|
            query.span(cleared.shift).covers(c) && holds(#[trigger] cleared.bucket(c), id);
        lemma_slots_in_range(cleared, c, id);
    }
}

/// An entity is inserted in full exactly where there is room for it: in the
/// cell list of its identifier for every cell that it covers, and in every
/// bucket for as many entries as covered cells fall into the bucket's slot.
/// Then the cell list has grown by those cells, in the order in which they
/// are walked, every bucket by one entry for each such cell, and the bucket of
/// every covered cell holds the identifier. In full or not, the tables keep
/// their slots.
pub proof fn law_insert_in_full(g: GridView, entity: Entity)
    requires
        g.wf(),
        entity.in_bounds(),
    ensures
        g.insert(entity).0.wf(),
        g.insert(entity).0.same_shape(g),
        g.insert(entity).1 <==> g.has_room_for(entity.id, entity.span(g.shift).cells()),
        g.insert(entity).1 ==> g.insert(entity).0.cell_list(entity.id) == g.cell_list(entity.id)
            + entity.span(g.shift).cells(),
        g.insert(entity).1 ==> forall|s: int|
            0 <= s < g.cells.len() ==> #[trigger] g.insert(entity).0.cells[s] == g.cells[s]
                + Seq::new(
                g.hits(entity.span(g.shift).cells(), s),
                |i: int| (entity.id, entity.span(g.shift).is_single()),
            ),
        g.insert(entity).1 ==> forall|c: (u32, u32)|
            entity.span(g.shift).covers(c) ==> holds(
                #[trigger] g.insert(entity).0.bucket(c),
                entity.id,
            ),
{
    let span = entity.span(g.shift);
    let cs = span.cells();
    let after = g.insert(entity).0;
    lemma_span_wf(entity.rect(), g.shift);
    lemma_cells(span);
    lemma_insert_cells_shape(g, entity.id, span.is_single(), cs);
    lemma_insert_cells_room(g, entity.id, span.is_single(), cs);
    if g.insert(entity).1 {
        lemma_insert_cells_done(g, entity.id, span.is_single(), cs);
        lemma_insert_cells_indexed(g, entity.id, span.is_single(), cs);
        assert forall|c: (u32, u32)| span.covers(c) implies holds(
            #[trigger] after.bucket(c),
            entity.id,
        ) by {
            assert(cs.contains(c));
            let k = choose|k: int| 0 <= k < cs.len() && cs[k] == c;
            assert(holds(after.bucket(cs[k]), entity.id));
        }
    }
}

/// A deletion finds the identifier exactly where cells are recorded for it
/// and, in every slot, the identifier occurs at least as often as recorded
/// cells fall into the slot. Found or not, the tables keep their slots,
/// the cell lists of other slots stay as they were, and no cell stays
/// recorded for the identifier.
pub proof fn law_delete_finds(g: GridView, id: u32)
    requires
        g.wf(),
    ensures
        g.delete(id).0.wf(),
        g.delete(id).0.same_shape(g),
        g.delete(id).0.cell_list(id).len() == 0,
        forall|s: int|
            0 <= s < g.maps.len() && s != g.id_slot(id) ==> g.delete(id).0.maps[s] == g.maps[s],
        g.delete(id).1 <==> g.cell_list(id).len() > 0 && g.at_least_recorded(id, g.cell_list(id)),
{
    lemma_slots_in_range(g, (0, 0), id);
    lemma_remove_cells_shape(g, id, g.cell_list(id));
    lemma_remove_cells_finds(g, id, g.cell_list(id));
}

/// After an entity whose identifier is new to the grid, and for which no cell
/// was recorded, is inserted in full, the cells recorded for it are the cells
/// that it covers, each once, and the bucket of each of them holds the
/// identifier once for each covered cell that falls into the bucket's slot:
/// exactly once where no other covered cell shares the slot.
pub proof fn law_inserted_entity_is_recorded(g: GridView, entity: Entity, c: (u32, u32))
    requires
        g.wf(),
        g.absent(entity.id),
        g.cell_list(entity.id).len() == 0,
        entity.in_bounds(),
        g.insert(entity).1,
        entity.span(g.shift).covers(c),
    ensures
        g.insert(entity).0.cell_list(entity.id) == entity.span(g.shift).cells(),
        entity.span(g.shift).cells().no_duplicates(),
        entity.span(g.shift).cells().contains(c),
        occurrences(g.insert(entity).0.bucket(c), entity.id) == g.hits(
            entity.span(g.shift).cells(),
            g.cell_slot(c),
        ),
        g.hits(entity.span(g.shift).cells(), g.cell_slot(c)) >= 1,
{
    let id = entity.id;
    let span = entity.span(g.shift);
    let cs = span.cells();
    let after = g.insert(entity).0;
    let slot = g.cell_slot(c);
    lemma_span_wf(entity.rect(), g.shift);
    lemma_cells(span);
    lemma_slots_in_range(g, c, id);
    assert forall|s: int| 0 <= s < g.cells.len() implies occurrences(#[trigger] g.cells[s], id)
        == 0 && g.hits(g.cell_list(id), s) == 0 by {
        lemma_holds_iff_occurs(g.cells[s], id);
    }
    lemma_insert_cells_shape(g, id, span.is_single(), cs);
    lemma_insert_cells_at_most(g, id, span.is_single(), cs);
    lemma_insert_cells_done(g, id, span.is_single(), cs);
    assert(g.cell_list(id) + cs == cs);
    assert(occurrences(after.cells[slot], id) <= after.hits(cs, slot));
    assert(occurrences(after.cells[slot], id) >= after.hits(cs, slot));
    assert(cs.contains(c));
    let k = choose|k: int| 0 <= k < cs.len() && cs[k] == c;
    assert(falls_in(g.cells.len(), slot)(cs[k]));
    lemma_count_zero(cs, falls_in(g.cells.len(), slot));
}

/// An entity that was inserted in full is returned by every query whose
/// region covers one of the entity's cells.
pub proof fn law_inserted_entity_is_returned(g: GridView, entity: Entity, query: Query)
    requires
        g.wf(),
        entity.in_bounds(),
        query.in_bounds(),
        g.insert(entity).1,
        exists|c: (u32, u32)|
            entity.span(g.shift).covers(c) && #[trigger] query.span(g.shift).covers(c),
    ensures
        g.insert(entity).0.query(query).contains(entity.id),
{
    let span = entity.span(g.shift);
    let cs = span.cells();
    let after = g.insert(entity).0;
    let c = choose|c: (u32, u32)| span.covers(c) && #[trigger] query.span(g.shift).covers(c);
    lemma_span_wf(entity.rect(), g.shift);
    lemma_cells(span);
    lemma_insert_cells_shape(g, entity.id, span.is_single(), cs);
    lemma_insert_cells_indexed(g, entity.id, span.is_single(), cs);
    assert(cs.contains(c));
    let k = choose|k: int| 0 <= k < cs.len() && cs[k] == c;
    assert(holds(after.bucket(cs[k]), entity.id));
    law_query_returns_what_it_reaches(after, query, entity.id);
}

/// Inserting an entity changes for no other identifier whether a query
/// returns it.
pub proof fn law_insert_keeps_other_entities(g: GridView, entity: Entity, query: Query, other: u32)
    requires
        g.wf(),
        query.in_bounds(),
        other != entity.id,
    ensures
        g.insert(entity).0.query(query).contains(other) <==> g.query(query).contains(other),
{
    let span = entity.span(g.shift);
    let after = g.insert(entity).0;
    let region = query.span(g.shift);
    lemma_insert_cells_shape(g, entity.id, span.is_single(), span.cells());
    law_query_returns_what_it_reaches(g, query, other);
    law_query_returns_what_it_reaches(after, query, other);
    assert forall|c: (u32, u32)| holds(#[trigger] after.bucket(c), other) <==> holds(
        g.bucket(c),
        other,
    ) by {
        lemma_slots_in_range(g, c, other);
        lemma_insert_cells_others(
            g,
            entity.id,
            span.is_single(),
            span.cells(),
            other,
            g.cell_slot(c),
        );
        lemma_holds_iff_occurs(after.bucket(c), other);
        lemma_holds_iff_occurs(g.bucket(c), other);
    }
    if g.reaches(region, other) {
        let c = choose|c: (u32, u32)| region.covers(c) && holds(#[trigger] g.bucket(c), other);
        assert(holds(after.bucket(c), other));
    }
    if after.reaches(region, other) {
        let c = choose|c: (u32, u32)| region.covers(c) && holds(#[trigger] after.bucket(c), other);
        assert(holds(g.bucket(c), other));
    }
}

/// Deleting an identifier changes for no other identifier whether a query
/// returns it.
pub proof fn law_delete_keeps_other_entities(g: GridView, id: u32, query: Query, other: u32)
    requires
        g.wf(),
        query.in_bounds(),
        other != id,
    ensures
        g.delete(id).0.query(query).contains(other) <==> g.query(query).contains(other),
{
    let removed = g.remove_cells(id, g.cell_list(id)).0;
    let after = g.delete(id).0;
    let region = query.span(g.shift);
    lemma_remove_cells_shape(g, id, g.cell_list(id));
    law_query_returns_what_it_reaches(g, query, other);
    law_query_returns_what_it_reaches(after, query, other);
    assert forall|c: (u32, u32)| holds(#[trigger] after.bucket(c), other) <==> holds(
        g.bucket(c),
        other,
    ) by {
        lemma_slots_in_range(g, c, other);
        lemma_remove_cells_others(g, id, g.cell_list(id), other, g.cell_slot(c));
        lemma_holds_iff_occurs(after.bucket(c), other);
        lemma_holds_iff_occurs(g.bucket(c), other);
    }
    if g.reaches(region, other) {
        let c = choose|c: (u32, u32)| region.covers(c) && holds(#[trigger] g.bucket(c), other);
        assert(holds(after.bucket(c), other));
    }
    if after.reaches(region, other) {
        let c = choose|c: (u32, u32)| region.covers(c) && holds(#[trigger] after.bucket(c), other);
        assert(holds(g.bucket(c), other));
    }
}

/// An entity whose identifier is new to the grid is gone after it is inserted
/// and then deleted, whether or not the insertion found room for all of it:
/// no bucket holds the identifier, no cell is recorded for it, and no query
/// returns it. Where the insertion was in full and no cell was recorded for
/// the identifier before, the deletion finds the entity.
pub proof fn law_insert_then_delete(g: GridView, entity: Entity, query: Query)
    requires
        g.wf(),
        g.absent(entity.id),
        entity.in_bounds(),
        query.in_bounds(),
    ensures
        ({
            let inserted = g.insert(entity).0;
            let deleted = inserted.delete(entity.id).0;
            &&& deleted.wf()
            &&& deleted.same_shape(g)
            &&& deleted.absent(entity.id)
            &&& deleted.cell_list(entity.id).len() == 0
            &&& !deleted.query(query).contains(entity.id)
            &&& g.insert(entity).1 && g.cell_list(entity.id).len() == 0 ==> inserted.delete(
                entity.id,
            ).1
        }),
{
    let id = entity.id;
    let span = entity.span(g.shift);
    let cs = span.cells();
    let inserted = g.insert(entity).0;
    let recs = inserted.cell_list(id);
    let removed = inserted.remove_cells(id, recs).0;
    let deleted = inserted.delete(id).0;
    lemma_span_wf(entity.rect(), g.shift);
    lemma_cells(span);
    assert(g.at_most_recorded(id, g.cell_list(id))) by {
        assert forall|s: int| 0 <= s < g.cells.len() implies occurrences(
            #[trigger] g.cells[s],
            id,
        ) == 0 by {
            lemma_holds_iff_occurs(g.cells[s], id);
        }
    }
    lemma_insert_cells_shape(g, id, span.is_single(), cs);
    lemma_insert_cells_at_most(g, id, span.is_single(), cs);
    lemma_remove_cells_shape(inserted, id, recs);
    lemma_remove_cells_clears(inserted, id, recs);
    lemma_slots_in_range(removed, (0, 0), id);
    assert(deleted.cells == removed.cells);
    if deleted.query(query).contains(id) {
        law_query_returns_what_it_reaches(deleted, query, id);
        let c = choose|c: (u32, u32)|
            query.span(deleted.shift).covers(c) && holds(#[trigger] deleted.bucket(c), id);
        lemma_slots_in_range(deleted, c, id);
    }
    if g.insert(entity).1 && g.cell_list(id).len() == 0 {
        assert(g.at_least_recorded(id, g.cell_list(id))) by {
            assert forall|s: int| 0 <= s < g.cells.len() implies g.hits(g.cell_list(id), s)
                == 0 by {}
        }
        lemma_insert_cells_done(g, id, span.is_single(), cs);
        lemma_remove_cells_finds(inserted, id, recs);
        assert(recs == cs);
    }
}

/// An entity that fits in one cell, and whose identifier the bucket of that
/// cell did not hold, is returned at most once by a query of that cell alone
/// after it is inserted, and exactly once where the insertion found room.
pub proof fn law_single_cell_entity_returned_once(g: GridView, entity: Entity, query: Query)
    requires
        g.wf(),
        entity.span(g.shift).is_single(),
        query.span(g.shift) == entity.span(g.shift),
        !holds(g.bucket((entity.span(g.shift).sx, entity.span(g.shift).sy)), entity.id),
    ensures
        times(g.insert(entity).0.query(query), entity.id) == if g.insert(entity).1 {
            1nat
        } else {
            0nat
        },
{
    let id = entity.id;
    let span = entity.span(g.shift);
    let c = (span.sx, span.sy);
    let cs = span.cells();
    let rest = cs.skip(1);
    let after = g.insert(entity).0;
    assert(cs == seq![c]);
    assert(rest == Seq::<(u32, u32)>::empty());
    lemma_insert_cells_shape(g, id, true, cs);
    lemma_slots_in_range(g, c, id);
    lemma_holds_iff_occurs(g.bucket(c), id);
    lemma_absorb_single(Seq::empty(), after.bucket(c), id);
    let collected = absorb(Seq::empty(), after.bucket(c), true);
    assert(after.gather(rest, true, collected) == collected);
    assert(after.query(query) == collected);
    assert(times(Seq::<u32>::empty(), id) == 0);
    if g.can_record(id) {
        lemma_record(g, id, c);
        let recorded = g.record(id, c);
        if recorded.can_store(c) {
            let stored = recorded.store(id, true, c);
            lemma_store(recorded, id, true, c);
            lemma_store_occurrences(recorded, id, true, c, id, g.cell_slot(c));
            assert(stored.insert_cells(id, true, rest) == (stored, true));
        }
    }
}

/// An entity that spans several cells, and whose identifier is new to the
/// grid, is returned at most once by a query of several cells after it is
/// inserted, however many of its cells the query covers; and exactly once
/// where the insertion was in full and the query covers one of its cells.
pub proof fn law_spanning_entity_returned_once(g: GridView, entity: Entity, query: Query)
    requires
        g.wf(),
        g.absent(entity.id),
        entity.in_bounds(),
        query.in_bounds(),
        !entity.span(g.shift).is_single(),
        !query.span(g.shift).is_single(),
    ensures
        times(g.insert(entity).0.query(query), entity.id) <= 1,
        g.insert(entity).1 && (exists|c: (u32, u32)|
            entity.span(g.shift).covers(c) && #[trigger] query.span(g.shift).covers(c)) ==> times(
            g.insert(entity).0.query(query),
            entity.id,
        ) == 1,
{
    let id = entity.id;
    let span = entity.span(g.shift);
    let after = g.insert(entity).0;
    assert(g.tagged_as(id, false)) by {
        assert forall|s: int, i: int|
            0 <= s < g.cells.len() && 0 <= i < g.cells[s].len() && (#[trigger] g.cells[s][i]).0
                == id implies g.cells[s][i].1 == false by {
            assert(holds(g.cells[s], id));
        }
    }
    lemma_insert_cells_shape(g, id, false, span.cells());
    lemma_insert_cells_tags(g, id, false, span.cells());
    assert(times(Seq::<u32>::empty(), id) == 0);
    lemma_gather_once(after, query.span(g.shift).cells(), Seq::empty(), id);
    if g.insert(entity).1 && (exists|c: (u32, u32)|
        span.covers(c) && #[trigger] query.span(g.shift).covers(c)) {
        law_inserted_entity_is_returned(g, entity, query);
        lemma_times_contains(after.query(query), id);
    }
}

} // verus!
