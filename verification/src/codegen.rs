use vstd::prelude::*;
use vstd::arithmetic::div_mod::lemma_fundamental_div_mod_converse;
use crate::errors::YarpError;
use crate::records::Record;
use crate::records::RecordView;
use crate::yarp_meta::GROUP_CAPACITY;
use crate::yarp_meta::IdView;
use crate::yarp_meta::LayoutEvent;
use crate::yarp_meta::PipelineView;
use crate::yarp_meta::RecordConsumerContext;
use crate::yarp_meta::Registries;
use crate::yarp_meta::UnitIdentifier;
use crate::yarp_meta::UnitView;
use crate::yarp_meta::VariantView;
use crate::yarp_meta::YarpUnit;
use crate::yarp_meta::consume_record;
use crate::yarp_meta::consume_spec;
use crate::yarp_meta::has_uid;
use crate::yarp_meta::initial_pipeline;
use crate::yarp_meta::keys_ok;
use crate::yarp_meta::key_idx_v;
use crate::yarp_meta::lemma_key_idx_v;
use crate::yarp_meta::pipeline_of;
use crate::yarp_meta::unit_id_view;

verus! {

/// Width of one placement-grid column, in world units.
pub const GRID_STEP_X: i64 = 128;

/// Horizontal extent after which the placement cursor wraps to a new row.
pub const GRID_WRAP_X: i64 = 1024;

/// Vertical distance between two placement rows (rows grow downward).
pub const GRID_STEP_Y: i64 = 128;

/// Most entries one lookup sub-block may hold: the target runtime enforces a
/// per-block size budget.
pub const CHUNK_SIZE: usize = 40;

/// Most layout events one run can place: keeps every grid coordinate within
/// the emitted integer type.
pub const PLACEMENT_LIMIT: usize = 0x1000_0000;

// ---------------------------------------------------------------------------
// Placement grid
// ---------------------------------------------------------------------------
/// The grid coordinates assigned to each completed shop, walking the layout
/// history with the cursor at `(x, y)`: a shop takes the cursor position and
/// advances it one column, wrapping to a new row at the threshold; a forced
/// row break wraps immediately.
pub open spec fn grid_walk(events: Seq<LayoutEvent>, x: int, y: int) -> Seq<(int, int)>
    decreases events.len(),
{
    if events.len() == 0 {
        Seq::empty()
    } else {
        match events[0] {
            LayoutEvent::ShopPlaced => {
                let rest = if x + 128 >= 1024 {
                    grid_walk(events.drop_first(), 0, y - 128)
                } else {
                    grid_walk(events.drop_first(), x + 128, y)
                };
                seq![(x, y)] + rest
            },
            LayoutEvent::RowBreak => grid_walk(events.drop_first(), 0, y - 128),
        }
    }
}

/// The grid coordinates of the shops of a layout history, from the origin.
pub open spec fn grid_coords(events: Seq<LayoutEvent>) -> Seq<(int, int)> {
    grid_walk(events, 0, 0)
}

/// Without forced row breaks the grid is a pure function of the shop index:
/// the k-th shop (0-indexed) stands at `x = (k*128) % 1024` and
/// `y = -128 * ((k*128) / 1024)`.
pub proof fn lemma_grid_no_breaks(events: Seq<LayoutEvent>)
    requires
        forall|i: int| 0 <= i < events.len() ==> events[i] == LayoutEvent::ShopPlaced,
    ensures
        grid_coords(events).len() == events.len(),
        forall|k: int|
            0 <= k < events.len() ==> #[trigger] grid_coords(events)[k] == (
                (k * 128) % 1024,
                -128 * ((k * 128) / 1024),
            ),
{
    lemma_grid_walk_shops(events, 0);
    assert forall|k: int| 0 <= k < events.len() implies grid_coords(events)[k] == (
        (k * 128) % 1024,
        -128 * ((k * 128) / 1024),
    ) by {
        lemma_mul_div_mod_8(k);
    }
}

/// `128 * k` decomposed by 1024 is `k` decomposed by 8, scaled by 128.
proof fn lemma_mul_div_mod_8(k: int)
    requires
        k >= 0,
    ensures
        (k * 128) % 1024 == 128 * (k % 8),
        (k * 128) / 1024 == k / 8,
{
    assert(k == 8 * (k / 8) + k % 8 && 0 <= k % 8 < 8) by (nonlinear_arith)
        requires
            k >= 0,
    ;
    assert(k * 128 == 1024 * (k / 8) + 128 * (k % 8) && 0 <= 128 * (k % 8) < 1024)
        by (nonlinear_arith)
        requires
            k == 8 * (k / 8) + k % 8 && 0 <= k % 8 < 8,
    ;
    lemma_fundamental_div_mod_converse(k * 128, 1024, k / 8, 128 * (k % 8));
}

/// Walking an all-shops history with the cursor after `j` shops yields, at
/// offset `k`, the position of shop `j + k`.
proof fn lemma_grid_walk_shops(events: Seq<LayoutEvent>, j: int)
    requires
        j >= 0,
        forall|i: int| 0 <= i < events.len() ==> events[i] == LayoutEvent::ShopPlaced,
    ensures
        grid_walk(events, 128 * (j % 8), -128 * (j / 8)).len() == events.len(),
        forall|k: int|
            0 <= k < events.len() ==> #[trigger] grid_walk(events, 128 * (j % 8), -128 * (j / 8))[k]
                == (128 * ((j + k) % 8), -128 * ((j + k) / 8)),
    decreases events.len(),
{
    if events.len() > 0 {
        let x = 128 * (j % 8);
        let y = -128 * (j / 8);
        assert(0 <= j % 8 < 8 && j == 8 * (j / 8) + j % 8) by (nonlinear_arith)
            requires
                j >= 0,
        ;
        lemma_grid_walk_shops(events.drop_first(), j + 1);
        if j % 8 == 7 {
            assert((j + 1) % 8 == 0 && (j + 1) / 8 == j / 8 + 1) by (nonlinear_arith)
                requires
                    j >= 0 && j % 8 == 7,
            ;
            assert(x + 128 >= 1024);
        } else {
            assert((j + 1) % 8 == j % 8 + 1 && (j + 1) / 8 == j / 8) by (nonlinear_arith)
                requires
                    j >= 0 && j % 8 < 7,
            ;
            assert(x + 128 < 1024);
        }
        let w = grid_walk(events, x, y);
        let rest = grid_walk(events.drop_first(), 128 * ((j + 1) % 8), -128 * ((j + 1) / 8));
        assert(w == seq![(x, y)] + rest);
        assert forall|k: int| 0 <= k < events.len() implies w[k] == (
            128 * ((j + k) % 8),
            -128 * ((j + k) / 8),
        ) by {
            if k > 0 {
                assert(w[k] == rest[k - 1]);
            }
        }
    }
}

/// Compute the placement coordinates of each shop of a layout history.
pub fn grid_positions(events: &Vec<LayoutEvent>) -> (r: Vec<(i64, i64)>)
    requires
        events@.len() <= PLACEMENT_LIMIT,
    ensures
        r@.map_values(|c: (i64, i64)| (c.0 as int, c.1 as int)) == grid_coords(events@),
{
    let mut r: Vec<(i64, i64)> = Vec::new();
    let mut x: i64 = 0;
    let mut y: i64 = 0;
    let mut i: usize = 0;
    proof {
        assert(events@.skip(0) =~= events@);
        assert(r@.map_values(|c: (i64, i64)| (c.0 as int, c.1 as int)) + grid_walk(events@, 0, 0)
            =~= grid_walk(events@, 0, 0));
    }
    while i < events.len()
        invariant
            i <= events@.len(),
            events@.len() <= PLACEMENT_LIMIT,
            0 <= x < 1024,
            -128 * (i as int) <= y <= 0,
            grid_coords(events@) == r@.map_values(|c: (i64, i64)| (c.0 as int, c.1 as int))
                + grid_walk(events@.skip(i as int), x as int, y as int),
        decreases events@.len() - i,
    {
        let ghost pre = r@.map_values(|c: (i64, i64)| (c.0 as int, c.1 as int));
        proof {
            assert(events@.skip(i as int).drop_first() =~= events@.skip(i as int + 1));
            assert(events@.skip(i as int)[0] == events@[i as int]);
        }
        match events[i] {
            LayoutEvent::ShopPlaced => {
                r.push((x, y));
                proof {
                    assert(r@.map_values(|c: (i64, i64)| (c.0 as int, c.1 as int)) =~= pre + seq![
                        (x as int, y as int),
                    ]);
                }
                x = x + GRID_STEP_X;
                if x >= GRID_WRAP_X {
                    x = 0;
                    y = y - GRID_STEP_Y;
                }
            },
            LayoutEvent::RowBreak => {
                x = 0;
                y = y - GRID_STEP_Y;
            },
        }
        i += 1;
        proof {
            assert(grid_coords(events@) == r@.map_values(|c: (i64, i64)| (c.0 as int, c.1 as int))
                + grid_walk(events@.skip(i as int), x as int, y as int));
        }
    }
    proof {
        assert(events@.skip(events@.len() as int) =~= Seq::<LayoutEvent>::empty());
        assert(grid_coords(events@) =~= r@.map_values(|c: (i64, i64)| (c.0 as int, c.1 as int)));
    }
    r
}

// ---------------------------------------------------------------------------
// Chunking
// ---------------------------------------------------------------------------
/// A sequence split into consecutive sub-blocks of at most `CHUNK_SIZE`
/// entries, all but the last exactly full.
pub open spec fn chunks_of<T>(s: Seq<T>) -> Seq<Seq<T>>
    decreases s.len(),
{
    if s.len() == 0 {
        Seq::empty()
    } else if s.len() <= 40 {
        seq![s]
    } else {
        seq![s.take(40)] + chunks_of(s.skip(40))
    }
}

/// Chunking yields `ceil(n / 40)` sub-blocks, each of at most 40 entries,
/// all but the last exactly 40, and their concatenation restores the input.
pub proof fn lemma_chunks_of<T>(s: Seq<T>)
    ensures
        chunks_of(s).len() == (s.len() + 39) / 40,
        forall|i: int| 0 <= i < chunks_of(s).len() ==> (#[trigger] chunks_of(s)[i]).len() <= 40,
        forall|i: int|
            0 <= i < chunks_of(s).len() - 1 ==> (#[trigger] chunks_of(s)[i]).len() == 40,
        chunks_of(s).flatten() == s,
    decreases s.len(),
{
    if s.len() == 0 {
        assert(chunks_of(s).flatten() =~= s);
    } else if s.len() <= 40 {
        let one = seq![s];
        assert(one.first() == s);
        assert(one.drop_first() =~= Seq::<Seq<T>>::empty());
        assert(Seq::<Seq<T>>::empty().flatten() =~= Seq::<T>::empty());
        assert(one.flatten() == one.first() + one.drop_first().flatten());
        assert(s + Seq::<T>::empty() =~= s);
        assert(chunks_of(s).flatten() =~= s);
    } else {
        lemma_chunks_of(s.skip(40));
        let c = chunks_of(s);
        let rest = chunks_of(s.skip(40));
        assert(c == seq![s.take(40)] + rest);
        assert forall|i: int| 0 <= i < c.len() implies (#[trigger] c[i]).len() <= 40 by {
            if i > 0 {
                assert(c[i] == rest[i - 1]);
            }
        }
        assert forall|i: int| 0 <= i < c.len() - 1 implies (#[trigger] c[i]).len() == 40 by {
            if i > 0 {
                assert(c[i] == rest[i - 1]);
            }
        }
        assert(c.first() == s.take(40));
        assert(c.drop_first() =~= rest);
        assert(c.flatten() =~= s.take(40) + rest.flatten());
        assert(s.take(40) + s.skip(40) =~= s);
        assert(c.flatten() =~= s);
    }
}

/// Split a table into sub-blocks of at most `CHUNK_SIZE` entries.
#[verifier::loop_isolation(false)]
pub fn chunk_entries<T>(v: Vec<T>) -> (r: Vec<Vec<T>>)
    ensures
        r@.map_values(|c: Vec<T>| c@) == chunks_of(v@),
{
    let ghost full = v@;
    let mut rest = v;
    let mut out: Vec<Vec<T>> = Vec::new();
    while rest.len() > 0
        invariant
            chunks_of(full) == out@.map_values(|c: Vec<T>| c@) + chunks_of(rest@),
        decreases rest@.len(),
    {
        let ghost start = rest@;
        let ghost pre = out@.map_values(|c: Vec<T>| c@);
        let mut chunk: Vec<T> = Vec::new();
        while chunk.len() < CHUNK_SIZE && rest.len() > 0
            invariant
                chunk@.len() <= CHUNK_SIZE,
                chunk@.len() + rest@.len() == start.len(),
                chunk@ == start.take(chunk@.len() as int),
                rest@ == start.skip(chunk@.len() as int),
            decreases rest@.len(),
        {
            let ghost n = chunk@.len() as int;
            let ghost before = rest@;
            let x = rest.remove(0);
            chunk.push(x);
            proof {
                before.remove_ensures(0);
                assert(start.skip(n)[0] == start[n]);
                assert(before[0] == start[n]);
                assert(chunk@ =~= start.take(n + 1));
                assert forall|j: int| 0 <= j < rest@.len() implies rest@[j] == start.skip(n + 1)[j]
                by {
                    assert(rest@[j] == before[j + 1]);
                    assert(start.skip(n)[j + 1] == start[n + 1 + j]);
                    assert(before[j + 1] == start[n + 1 + j]);
                }
                assert(rest@ =~= start.skip(n + 1));
            }
        }
        out.push(chunk);
        proof {
            if start.len() <= 40 {
                assert(chunk@ =~= start);
                assert(rest@ =~= Seq::<T>::empty());
                assert(chunks_of(start) == seq![start]);
                assert(out@.map_values(|c: Vec<T>| c@) =~= pre + seq![start]);
                assert(pre + seq![start] + chunks_of(rest@) =~= pre + chunks_of(start));
            } else {
                assert(chunk@ =~= start.take(40));
                assert(chunks_of(start) == seq![start.take(40)] + chunks_of(start.skip(40)));
                assert(out@.map_values(|c: Vec<T>| c@) =~= pre + seq![start.take(40)]);
                assert(pre + seq![start.take(40)] + chunks_of(rest@) =~= pre + chunks_of(start));
            }
        }
    }
    proof {
        assert(chunks_of(full) =~= out@.map_values(|c: Vec<T>| c@));
    }
    out
}

// ---------------------------------------------------------------------------
// Entity groups and the pipeline invariant
// ---------------------------------------------------------------------------
/// Whether an entry is a custom unit.
pub open spec fn is_unit(p: (IdView, UnitView)) -> bool {
    p.1 is Custom && p.1->Custom_variant is Unit
}

/// Whether an entry is a custom building.
pub open spec fn is_building(p: (IdView, UnitView)) -> bool {
    p.1 is Custom && p.1->Custom_variant is Building
}

/// Whether an entry is a shop.
pub open spec fn is_shop(p: (IdView, UnitView)) -> bool {
    p.1 is Custom && p.1->Custom_variant is Shop
}

/// Whether an entry is a builder.
pub open spec fn is_builder(p: (IdView, UnitView)) -> bool {
    p.1 is Custom && p.1->Custom_variant is Builder
}

/// The custom units of a registry, in insertion order.
pub open spec fn unit_group(s: Seq<(IdView, UnitView)>) -> Seq<(IdView, UnitView)> {
    s.filter(|p: (IdView, UnitView)| is_unit(p))
}

/// The buildings of a registry, in insertion order.
pub open spec fn building_group(s: Seq<(IdView, UnitView)>) -> Seq<(IdView, UnitView)> {
    s.filter(|p: (IdView, UnitView)| is_building(p))
}

/// The shops of a registry, in insertion order: the emission order of the
/// placement grid.
pub open spec fn shop_group(s: Seq<(IdView, UnitView)>) -> Seq<(IdView, UnitView)> {
    s.filter(|p: (IdView, UnitView)| is_shop(p))
}

/// The builders of a registry, in insertion order.
pub open spec fn builder_group(s: Seq<(IdView, UnitView)>) -> Seq<(IdView, UnitView)> {
    s.filter(|p: (IdView, UnitView)| is_builder(p))
}

/// How many shops a layout history has placed.
pub open spec fn placed_count(events: Seq<LayoutEvent>) -> nat
    decreases events.len(),
{
    if events.len() == 0 {
        0
    } else {
        (if events[0] is ShopPlaced {
            1nat
        } else {
            0nat
        }) + placed_count(events.drop_first())
    }
}

/// Appending an event raises the placed count by one exactly for a shop.
pub proof fn lemma_placed_count_push(events: Seq<LayoutEvent>, e: LayoutEvent)
    ensures
        placed_count(events.push(e)) == placed_count(events) + (if e is ShopPlaced {
            1nat
        } else {
            0nat
        }),
    decreases events.len(),
{
    if events.len() == 0 {
        assert(events.push(e)[0] == e);
        assert(events.push(e).drop_first() =~= Seq::<LayoutEvent>::empty());
        assert(placed_count(Seq::<LayoutEvent>::empty()) == 0);
    } else {
        assert(events.push(e)[0] == events[0]);
        assert(events.push(e).drop_first() =~= events.drop_first().push(e));
        lemma_placed_count_push(events.drop_first(), e);
    }
}

/// The grid walk assigns one coordinate pair per placed shop.
pub proof fn lemma_grid_walk_placed(events: Seq<LayoutEvent>, x: int, y: int)
    ensures
        grid_walk(events, x, y).len() == placed_count(events),
    decreases events.len(),
{
    if events.len() > 0 {
        lemma_grid_walk_placed(events.drop_first(), 0, y - 128);
        lemma_grid_walk_placed(events.drop_first(), x + 128, y);
    }
}

/// Replacing an element that a filter rejects by another it rejects leaves
/// the filtered sequence unchanged.
pub proof fn lemma_filter_update<T>(s: Seq<T>, i: int, x: T, pred: spec_fn(T) -> bool)
    requires
        0 <= i < s.len(),
        !pred(s[i]),
        !pred(x),
    ensures
        s.update(i, x).filter(pred) == s.filter(pred),
    decreases s.len(),
{
    reveal(Seq::filter);
    let u = s.update(i, x);
    assert(u.len() == s.len());
    if i == s.len() - 1 {
        assert(u.drop_last() =~= s.drop_last());
        assert(u.last() == x);
        assert(s.last() == s[i]);
    } else {
        assert(u.drop_last() =~= s.drop_last().update(i, x));
        assert(u.last() == s.last());
        lemma_filter_update(s.drop_last(), i, x, pred);
    }
}

/// How many custom entities the registry holds.
pub open spec fn custom_count(units: Seq<(IdView, UnitView)>) -> nat {
    units.filter(|p: (IdView, UnitView)| p.1 is Custom).len()
}

/// Whether some entry of the registry has the given key.
pub open spec fn units_has_key(units: Seq<(IdView, UnitView)>, k: IdView) -> bool {
    exists|j: int| 0 <= j < units.len() && (#[trigger] units[j].0) == k
}

/// Per-entry well-formedness of the group sizes: a shop sells at most the
/// group capacity, a builder builds at most the group capacity.
pub open spec fn entry_groups_ok(u: UnitView) -> bool {
    match u {
        UnitView::Custom { variant: VariantView::Shop { sold, .. }, .. } => sold.len()
            <= GROUP_CAPACITY as int,
        UnitView::Custom { variant: VariantView::Builder { built }, .. } => built.len()
            <= GROUP_CAPACITY as int,
        _ => true,
    }
}

/// Per-entry resolvability: a shop's sold list resolves to entities below
/// shop rank, a builder's built list to plain entities.
pub open spec fn entry_refs_ok(units: Seq<(IdView, UnitView)>, u: UnitView) -> bool {
    match u {
        UnitView::Custom {
            variant: VariantView::Shop { sold, .. },
            ..
        } => crate::yarp_data::resolvable(units, sold, 1),
        UnitView::Custom {
            variant: VariantView::Builder { built },
            ..
        } => crate::yarp_data::resolvable(units, built, 0),
        _ => true,
    }
}

/// Appending an entry leaves every resolvable list resolvable: present keys
/// keep their positions and their entities.
pub proof fn lemma_resolvable_push(
    units: Seq<(IdView, UnitView)>,
    p: (IdView, UnitView),
    ids: Seq<IdView>,
    m: nat,
)
    requires
        crate::yarp_data::resolvable(units, ids, m),
    ensures
        crate::yarp_data::resolvable(units.push(p), ids, m),
{
    assert forall|k: int|
        0 <= k < ids.len() implies key_idx_v(units.push(p), #[trigger] ids[k]) >= 0
            && crate::yarp_data::rank(
            units.push(p)[key_idx_v(units.push(p), ids[k])].1,
        ) <= m by {
        crate::yarp_meta::lemma_key_idx_v(units, ids[k]);
        crate::yarp_meta::lemma_key_idx_push(units, p, ids[k]);
        let j = key_idx_v(units, ids[k]);
        assert(units.push(p)[j] == units[j]);
    }
}

/// Rebinding a stock entity in place leaves every resolvable list
/// resolvable.
pub proof fn lemma_resolvable_update_stock(
    units: Seq<(IdView, UnitView)>,
    i: int,
    v: UnitView,
    ids: Seq<IdView>,
    m: nat,
)
    requires
        0 <= i < units.len(),
        crate::yarp_data::rank(v) == 0,
        crate::yarp_data::resolvable(units, ids, m),
    ensures
        crate::yarp_data::resolvable(units.update(i, (units[i].0, v)), ids, m),
{
    let u = units.update(i, (units[i].0, v));
    assert forall|k: int|
        0 <= k < ids.len() implies key_idx_v(u, #[trigger] ids[k]) >= 0
            && crate::yarp_data::rank(u[key_idx_v(u, ids[k])].1) <= m by {
        crate::yarp_meta::lemma_key_idx_v(units, ids[k]);
        crate::yarp_meta::lemma_key_idx_update(units, i, v, ids[k]);
        let j = key_idx_v(units, ids[k]);
        if j != i {
            assert(u[j] == units[j]);
        }
    }
}

/// The invariant of a pipeline run: symbolic keys well formed and mirrored
/// by the entity registry, entity keys unique and consistent with the stored
/// entities, every stored or pending reference resolvable, one placement
/// event per shop, and the pending groups within capacity.
pub open spec fn pipeline_wf(s: PipelineView) -> bool {
    &&& keys_ok(s.symbolic)
    &&& forall|i: int, j: int| 0 <= i < j < s.units.len() ==> s.units[i].0 != s.units[j].0
    &&& forall|i: int|
        0 <= i < s.units.len() ==> unit_id_view(#[trigger] s.units[i].1) == s.units[i].0
    &&& forall|i: int|
        0 <= i < s.units.len() ==> ((#[trigger] s.units[i].0) is Uid ==> has_uid(
            s.symbolic,
            s.units[i].0->Uid_uid,
        ) && s.units[i].0->Uid_constant == crate::outside::shouty_snake_of(
            s.units[i].0->Uid_uid,
        ))
    &&& forall|i: int|
        0 <= i < s.units.len() ==> ((s.units[i].0 is Raw) <==> ((#[trigger] s.units[i].1)
            is Stock))
    &&& forall|i: int|
        0 <= i < s.symbolic.len() ==> #[trigger] units_has_key(
            s.units,
            IdView::Uid { uid: s.symbolic[i].0, constant: s.symbolic[i].1 },
        )
    &&& forall|i: int| 0 <= i < s.units.len() ==> entry_groups_ok((#[trigger] s.units[i]).1)
    &&& forall|i: int| 0 <= i < s.units.len() ==> entry_refs_ok(s.units, (#[trigger] s.units[i]).1)
    &&& crate::yarp_data::resolvable(s.units, s.ctx.unit_queue, 1)
    &&& crate::yarp_data::resolvable(s.units, s.ctx.building_queue, 0)
    &&& shop_group(s.units).len() == placed_count(s.ctx.layout)
    &&& custom_count(s.units) == s.symbolic.len()
    &&& s.ctx.unit_queue.len() <= GROUP_CAPACITY as int
    &&& s.ctx.building_queue.len() <= GROUP_CAPACITY as int
}

/// The empty pipeline is well formed.
pub proof fn lemma_initial_pipeline_wf()
    ensures
        pipeline_wf(initial_pipeline()),
{
    reveal(Seq::filter);
    assert(shop_group(Seq::<(IdView, UnitView)>::empty()).len() == 0);
    assert(custom_count(Seq::<(IdView, UnitView)>::empty()) == 0);
    assert(placed_count(Seq::<LayoutEvent>::empty()) == 0);
}

/// A well-formed pipeline's entity registry is serializable: every entity
/// carries its own key of the right shape, and every stored reference list
/// resolves below the referencing rank.
pub proof fn lemma_wf_serializable(s: PipelineView)
    requires
        pipeline_wf(s),
    ensures
        crate::yarp_data::serializable(s.units),
{
    assert forall|i: int|
        0 <= i < s.units.len() implies match (#[trigger] s.units[i]).1 {
        UnitView::Stock { id, .. } => id is Raw,
        UnitView::Custom { id, .. } => id is Uid,
    } by {
        assert(unit_id_view(s.units[i].1) == s.units[i].0);
        assert((s.units[i].0 is Raw) <==> (s.units[i].1 is Stock));
    }
    assert forall|i: int|
        0 <= i < s.units.len() implies match (#[trigger] s.units[i]).1 {
        UnitView::Custom {
            variant: VariantView::Shop { sold, .. },
            ..
        } => crate::yarp_data::resolvable(s.units, sold, 1),
        UnitView::Custom {
            variant: VariantView::Builder { built },
            ..
        } => crate::yarp_data::resolvable(s.units, built, 0),
        _ => true,
    } by {
        assert(entry_refs_ok(s.units, s.units[i].1));
    }
}

/// Consuming a directive preserves the pipeline invariant.
pub proof fn lemma_consume_preserves_wf(rec: RecordView, s: PipelineView)
    requires
        pipeline_wf(s),
        consume_spec(rec, s) is Ok,
    ensures
        pipeline_wf(consume_spec(rec, s)->Ok_0),
{
    let t = consume_spec(rec, s)->Ok_0;
    match rec {
        RecordView::CustomUnit { uid, name, model } => {
            let uv = UnitView::Custom {
                id: IdView::Uid { uid, constant: crate::outside::shouty_snake_of(uid) },
                variant: VariantView::Unit,
                name,
                model: crate::outside::trim_of(model),
                icon: s.ctx.icon,
            };
            assert(crate::yarp_data::rank(uv) == 0);
            lemma_fresh_uid_insert(s, uid, uv, t);
        },
        RecordView::CustomBuilding { uid, name, model } => {
            let uv = UnitView::Custom {
                id: IdView::Uid { uid, constant: crate::outside::shouty_snake_of(uid) },
                variant: VariantView::Building,
                name,
                model: crate::outside::trim_of(model),
                icon: s.ctx.icon,
            };
            assert(crate::yarp_data::rank(uv) == 0);
            lemma_fresh_uid_insert(s, uid, uv, t);
        },
        RecordView::CustomBuilder { uid, name, model } => {
            let uv = UnitView::Custom {
                id: IdView::Uid { uid, constant: crate::outside::shouty_snake_of(uid) },
                variant: VariantView::Builder { built: s.ctx.building_queue },
                name,
                model: crate::outside::trim_of(Seq::empty()),
                icon: s.ctx.icon,
            };
            assert(crate::yarp_data::rank(uv) == 1);
            assert(entry_refs_ok(s.units, uv));
            lemma_fresh_uid_insert(s, uid, uv, t);
        },
        RecordView::UnitShop { uid, name, model } => {
            let eff_model = match model {
                Option::Some(m) => m,
                Option::None => s.ctx.shop_model,
            };
            lemma_placed_count_push(s.ctx.layout, LayoutEvent::ShopPlaced);
            let uv = UnitView::Custom {
                id: IdView::Uid { uid, constant: crate::outside::shouty_snake_of(uid) },
                variant: VariantView::Shop { sold: s.ctx.unit_queue, scale: s.ctx.scale },
                name,
                model: crate::outside::trim_of(eff_model),
                icon: Seq::empty(),
            };
            assert(entry_refs_ok(s.units, uv));
            assert(t.ctx.unit_queue == Seq::<IdView>::empty());
            lemma_fresh_uid_insert(s, uid, uv, t);
        },
        RecordView::StockUnit { id, model } => {
            let kv = IdView::Raw { rawid: id };
            let uv = UnitView::Stock { id: kv, model };
            lemma_raw_upsert(s, kv, uv, t);
        },
        RecordView::StockUnitModel { .. } => {
        },
        RecordView::SetShopModel { .. } => {
        },
        RecordView::SetDefaultIcon { .. } => {
        },
        RecordView::SetShopScale { .. } => {
        },
        RecordView::ShopNewLine => {
            lemma_placed_count_push(s.ctx.layout, LayoutEvent::RowBreak);
        },
    }
}

/// Appending an element that a filter accepts appends it to the filtered
/// sequence; one it rejects leaves the filtered sequence unchanged.
pub proof fn lemma_filter_push<T>(s: Seq<T>, x: T, pred: spec_fn(T) -> bool)
    requires
        pred(x),
    ensures
        s.push(x).filter(pred) == s.filter(pred).push(x),
{
    reveal(Seq::filter);
    assert(s.push(x).drop_last() =~= s);
    assert(s.push(x).last() == x);
}

/// Appending an element that a filter rejects leaves the filtered sequence
/// unchanged.
pub proof fn lemma_filter_push_false<T>(s: Seq<T>, x: T, pred: spec_fn(T) -> bool)
    requires
        !pred(x),
    ensures
        s.push(x).filter(pred) == s.filter(pred),
{
    reveal(Seq::filter);
    assert(s.push(x).drop_last() =~= s);
    assert(s.push(x).last() == x);
}

/// A custom entity with a fresh symbolic key is appended, never updated,
/// and the invariant survives.
proof fn lemma_fresh_uid_insert(s: PipelineView, uid: Seq<char>, uv: UnitView, t: PipelineView)
    requires
        pipeline_wf(s),
        !has_uid(s.symbolic, uid),
        uv is Custom,
        unit_id_view(uv) == (IdView::Uid {
            uid,
            constant: crate::outside::shouty_snake_of(uid),
        }),
        entry_groups_ok(uv),
        t.symbolic == s.symbolic.push((uid, crate::outside::shouty_snake_of(uid))),
        t.units == crate::yarp_meta::upsert_v(s.units, unit_id_view(uv), uv),
        placed_count(t.ctx.layout) == placed_count(s.ctx.layout) + (if is_shop(
            (unit_id_view(uv), uv),
        ) {
            1nat
        } else {
            0nat
        }),
        entry_refs_ok(s.units, uv),
        (t.ctx.unit_queue == s.ctx.unit_queue.push(unit_id_view(uv)) && crate::yarp_data::rank(uv)
            <= 1) || t.ctx.unit_queue == Seq::<IdView>::empty() || t.ctx.unit_queue
            == s.ctx.unit_queue,
        (t.ctx.building_queue == s.ctx.building_queue.push(unit_id_view(uv))
            && crate::yarp_data::rank(uv) == 0) || t.ctx.building_queue == Seq::<IdView>::empty()
            || t.ctx.building_queue == s.ctx.building_queue,
        t.ctx.unit_queue.len() <= GROUP_CAPACITY as int,
        t.ctx.building_queue.len() <= GROUP_CAPACITY as int,
    ensures
        pipeline_wf(t),
{
    let kv = unit_id_view(uv);
    lemma_key_idx_v(s.units, kv);
    let i = key_idx_v(s.units, kv);
    assert(i < 0) by {
        if i >= 0 {
            assert(s.units[i].0 == kv);
            assert(s.units[i].0 is Uid);
            assert(has_uid(s.symbolic, uid));
        }
    }
    assert(t.units == s.units.push((kv, uv)));
    if is_shop((kv, uv)) {
        lemma_filter_push(s.units, (kv, uv), |p: (IdView, UnitView)| is_shop(p));
    } else {
        lemma_filter_push_false(s.units, (kv, uv), |p: (IdView, UnitView)| is_shop(p));
    }
    lemma_filter_push(s.units, (kv, uv), |p: (IdView, UnitView)| p.1 is Custom);
    // every stored reference list stays resolvable, the new entry's included
    assert forall|a: int|
        0 <= a < t.units.len() implies entry_refs_ok(t.units, (#[trigger] t.units[a]).1) by {
        if a < s.units.len() {
            assert(t.units[a] == s.units[a]);
            assert(entry_refs_ok(s.units, s.units[a].1));
            match s.units[a].1 {
                UnitView::Custom { variant: VariantView::Shop { sold, .. }, .. } => {
                    lemma_resolvable_push(s.units, (kv, uv), sold, 1);
                },
                UnitView::Custom { variant: VariantView::Builder { built }, .. } => {
                    lemma_resolvable_push(s.units, (kv, uv), built, 0);
                },
                _ => {},
            }
        } else {
            assert(t.units[a] == (kv, uv));
            match uv {
                UnitView::Custom { variant: VariantView::Shop { sold, .. }, .. } => {
                    lemma_resolvable_push(s.units, (kv, uv), sold, 1);
                },
                UnitView::Custom { variant: VariantView::Builder { built }, .. } => {
                    lemma_resolvable_push(s.units, (kv, uv), built, 0);
                },
                _ => {},
            }
        }
    }
    // the pending queues stay resolvable
    crate::yarp_meta::lemma_key_idx_push(s.units, (kv, uv), kv);
    assert(key_idx_v(t.units, kv) == s.units.len());
    assert(t.units[s.units.len() as int] == (kv, uv));
    lemma_resolvable_push(s.units, (kv, uv), s.ctx.unit_queue, 1);
    lemma_resolvable_push(s.units, (kv, uv), s.ctx.building_queue, 0);
    assert(crate::yarp_data::resolvable(t.units, t.ctx.unit_queue, 1)) by {
        if t.ctx.unit_queue == s.ctx.unit_queue.push(kv) && crate::yarp_data::rank(uv) <= 1 {
            let q = s.ctx.unit_queue;
            assert forall|k: int|
                0 <= k < q.push(kv).len() implies key_idx_v(t.units, #[trigger] q.push(kv)[k])
                    >= 0 && crate::yarp_data::rank(
                    t.units[key_idx_v(t.units, q.push(kv)[k])].1,
                ) <= 1 by {
                if k < q.len() {
                    assert(q.push(kv)[k] == q[k]);
                } else {
                    assert(q.push(kv)[k] == kv);
                }
            }
        }
    }
    assert(crate::yarp_data::resolvable(t.units, t.ctx.building_queue, 0)) by {
        if t.ctx.building_queue == s.ctx.building_queue.push(kv) && crate::yarp_data::rank(uv)
            == 0 {
            let q = s.ctx.building_queue;
            assert forall|k: int|
                0 <= k < q.push(kv).len() implies key_idx_v(t.units, #[trigger] q.push(kv)[k])
                    >= 0 && crate::yarp_data::rank(
                    t.units[key_idx_v(t.units, q.push(kv)[k])].1,
                ) <= 0 by {
                if k < q.len() {
                    assert(q.push(kv)[k] == q[k]);
                } else {
                    assert(q.push(kv)[k] == kv);
                }
            }
        }
    }
    assert forall|a: int, b: int| 0 <= a < b < t.units.len() implies t.units[a].0 != t.units[b].0
    by {
        if b < s.units.len() {
        } else {
            assert(t.units[b].0 == kv);
            assert(t.units[a].0 == s.units[a].0);
            if s.units[a].0 is Uid {
                assert(has_uid(s.symbolic, s.units[a].0->Uid_uid));
            }
        }
    }
    assert forall|a: int|
        0 <= a < t.units.len() implies ((#[trigger] t.units[a].0) is Uid ==> has_uid(
        t.symbolic,
        t.units[a].0->Uid_uid,
    ) && t.units[a].0->Uid_constant == crate::outside::shouty_snake_of(t.units[a].0->Uid_uid)) by {
        if a < s.units.len() {
            if s.units[a].0 is Uid {
                assert(has_uid(s.symbolic, s.units[a].0->Uid_uid));
                let w = choose|w: int|
                    0 <= w < s.symbolic.len() && s.symbolic[w].0 == s.units[a].0->Uid_uid;
                assert(t.symbolic[w] == s.symbolic[w]);
            }
        } else {
            assert(t.units[a].0 == kv);
            assert(t.symbolic[s.symbolic.len() as int].0 == uid);
        }
    }
    assert forall|a: int|
        0 <= a < t.symbolic.len() implies #[trigger] units_has_key(
        t.units,
        IdView::Uid { uid: t.symbolic[a].0, constant: t.symbolic[a].1 },
    ) by {
        if a < s.symbolic.len() {
            assert(t.symbolic[a] == s.symbolic[a]);
            assert(units_has_key(
                s.units,
                IdView::Uid { uid: s.symbolic[a].0, constant: s.symbolic[a].1 },
            ));
            let j = choose|j: int|
                0 <= j < s.units.len() && (#[trigger] s.units[j].0) == (IdView::Uid {
                    uid: s.symbolic[a].0,
                    constant: s.symbolic[a].1,
                });
            assert(t.units[j].0 == s.units[j].0);
        } else {
            assert(t.symbolic[a] == (uid, crate::outside::shouty_snake_of(uid)));
            assert(t.units[s.units.len() as int].0 == kv);
        }
    }
    assert forall|a: int|
        0 <= a < t.units.len() implies unit_id_view(#[trigger] t.units[a].1) == t.units[a].0 by {
        if a < s.units.len() {
            assert(t.units[a] == s.units[a]);
        } else {
            assert(t.units[a] == (kv, uv));
        }
    }
    assert forall|a: int|
        0 <= a < t.units.len() implies ((t.units[a].0 is Raw) <==> ((#[trigger] t.units[a].1)
            is Stock)) by {
        if a < s.units.len() {
            assert(t.units[a] == s.units[a]);
        } else {
            assert(t.units[a] == (kv, uv));
        }
    }
    assert forall|a: int|
        0 <= a < t.units.len() implies entry_groups_ok((#[trigger] t.units[a]).1) by {
        if a < s.units.len() {
            assert(t.units[a] == s.units[a]);
        } else {
            assert(t.units[a] == (kv, uv));
        }
    }
    assert forall|a: int, b: int|
        0 <= a < b < t.symbolic.len() implies t.symbolic[a].0 != t.symbolic[b].0 by {
        if b < s.symbolic.len() {
            assert(t.symbolic[a] == s.symbolic[a]);
            assert(t.symbolic[b] == s.symbolic[b]);
        } else {
            assert(t.symbolic[a] == s.symbolic[a]);
            assert(t.symbolic[b] == (uid, crate::outside::shouty_snake_of(uid)));
            assert(!has_uid(s.symbolic, uid));
        }
    }
    assert forall|a: int|
        0 <= a < t.symbolic.len() implies (#[trigger] t.symbolic[a]).1
            == crate::outside::shouty_snake_of(t.symbolic[a].0) by {
        if a < s.symbolic.len() {
            assert(t.symbolic[a] == s.symbolic[a]);
        } else {
            assert(t.symbolic[a] == (uid, crate::outside::shouty_snake_of(uid)));
        }
    }
}

/// Storing a stock entity under its raw identifier preserves the invariant,
/// whether the key is fresh or rebinds an earlier stock entry.
proof fn lemma_raw_upsert(s: PipelineView, kv: IdView, uv: UnitView, t: PipelineView)
    requires
        pipeline_wf(s),
        kv is Raw,
        uv is Stock,
        unit_id_view(uv) == kv,
        t.symbolic == s.symbolic,
        t.units == crate::yarp_meta::upsert_v(s.units, kv, uv),
        placed_count(t.ctx.layout) == placed_count(s.ctx.layout),
        t.ctx.unit_queue == s.ctx.unit_queue.push(kv),
        t.ctx.building_queue == s.ctx.building_queue,
        t.ctx.unit_queue.len() <= GROUP_CAPACITY as int,
        t.ctx.building_queue.len() <= GROUP_CAPACITY as int,
    ensures
        pipeline_wf(t),
{
    lemma_key_idx_v(s.units, kv);
    let i = key_idx_v(s.units, kv);
    assert(crate::yarp_data::rank(uv) == 0);
    if i >= 0 {
        assert(s.units[i].0 == kv);
        assert(t.units == s.units.update(i, (s.units[i].0, uv)));
        assert(s.units[i].1 is Stock);
        assert(!is_shop(s.units[i]));
        assert(!is_shop((s.units[i].0, uv)));
        lemma_filter_update(s.units, i, (s.units[i].0, uv), |p: (IdView, UnitView)| is_shop(p));
        lemma_filter_update(
            s.units,
            i,
            (s.units[i].0, uv),
            |p: (IdView, UnitView)| p.1 is Custom,
        );
        // every stored reference list stays resolvable under the rebinding
        assert forall|a: int|
            0 <= a < t.units.len() implies entry_refs_ok(t.units, (#[trigger] t.units[a]).1) by {
            if a != i {
                assert(t.units[a] == s.units[a]);
                assert(entry_refs_ok(s.units, s.units[a].1));
                match s.units[a].1 {
                    UnitView::Custom { variant: VariantView::Shop { sold, .. }, .. } => {
                        lemma_resolvable_update_stock(s.units, i, uv, sold, 1);
                    },
                    UnitView::Custom { variant: VariantView::Builder { built }, .. } => {
                        lemma_resolvable_update_stock(s.units, i, uv, built, 0);
                    },
                    _ => {},
                }
            } else {
                assert(t.units[a] == (s.units[i].0, uv));
            }
        }
        // so do the pending queues, with the rebound key still resolving
        crate::yarp_meta::lemma_key_idx_update(s.units, i, uv, kv);
        assert(key_idx_v(t.units, kv) == i);
        assert(t.units[i] == (s.units[i].0, uv));
        lemma_resolvable_update_stock(s.units, i, uv, s.ctx.unit_queue, 1);
        lemma_resolvable_update_stock(s.units, i, uv, s.ctx.building_queue, 0);
        assert(crate::yarp_data::resolvable(t.units, t.ctx.unit_queue, 1)) by {
            let q = s.ctx.unit_queue;
            assert forall|k: int|
                0 <= k < q.push(kv).len() implies key_idx_v(t.units, #[trigger] q.push(kv)[k])
                    >= 0 && crate::yarp_data::rank(
                    t.units[key_idx_v(t.units, q.push(kv)[k])].1,
                ) <= 1 by {
                if k < q.len() {
                    assert(q.push(kv)[k] == q[k]);
                } else {
                    assert(q.push(kv)[k] == kv);
                }
            }
        }
        assert forall|a: int, b: int|
            0 <= a < b < t.units.len() implies t.units[a].0 != t.units[b].0 by {
            assert(t.units[a].0 == s.units[a].0);
            assert(t.units[b].0 == s.units[b].0);
        }
        assert forall|a: int|
            0 <= a < t.units.len() implies unit_id_view(#[trigger] t.units[a].1) == t.units[a].0
        by {
            if a != i {
                assert(t.units[a] == s.units[a]);
            } else {
                assert(t.units[a] == (s.units[i].0, uv));
            }
        }
        assert forall|a: int|
            0 <= a < t.units.len() implies ((#[trigger] t.units[a].0) is Uid ==> has_uid(
            t.symbolic,
            t.units[a].0->Uid_uid,
        ) && t.units[a].0->Uid_constant == crate::outside::shouty_snake_of(
            t.units[a].0->Uid_uid,
        )) by {
            assert(t.units[a].0 == s.units[a].0);
        }
        assert forall|a: int|
            0 <= a < t.units.len() implies ((t.units[a].0 is Raw) <==> ((#[trigger] t.units[a].1)
                is Stock)) by {
            if a != i {
                assert(t.units[a] == s.units[a]);
            } else {
                assert(t.units[a] == (s.units[i].0, uv));
            }
        }
        assert forall|a: int|
            0 <= a < t.units.len() implies entry_groups_ok((#[trigger] t.units[a]).1) by {
            if a != i {
                assert(t.units[a] == s.units[a]);
            } else {
                assert(t.units[a] == (s.units[i].0, uv));
            }
        }
        assert forall|a: int|
            0 <= a < t.symbolic.len() implies #[trigger] units_has_key(
            t.units,
            IdView::Uid { uid: t.symbolic[a].0, constant: t.symbolic[a].1 },
        ) by {
            assert(t.symbolic[a] == s.symbolic[a]);
            assert(units_has_key(
                s.units,
                IdView::Uid { uid: s.symbolic[a].0, constant: s.symbolic[a].1 },
            ));
            let j = choose|j: int|
                0 <= j < s.units.len() && (#[trigger] s.units[j].0) == (IdView::Uid {
                    uid: s.symbolic[a].0,
                    constant: s.symbolic[a].1,
                });
            assert(t.units[j].0 == s.units[j].0);
        }
    } else {
        assert(t.units == s.units.push((kv, uv)));
        lemma_filter_push_false(s.units, (kv, uv), |p: (IdView, UnitView)| is_shop(p));
        lemma_filter_push_false(s.units, (kv, uv), |p: (IdView, UnitView)| p.1 is Custom);
        // every stored reference list stays resolvable, and the fresh stock
        // entry resolves to itself
        assert forall|a: int|
            0 <= a < t.units.len() implies entry_refs_ok(t.units, (#[trigger] t.units[a]).1) by {
            if a < s.units.len() {
                assert(t.units[a] == s.units[a]);
                assert(entry_refs_ok(s.units, s.units[a].1));
                match s.units[a].1 {
                    UnitView::Custom { variant: VariantView::Shop { sold, .. }, .. } => {
                        lemma_resolvable_push(s.units, (kv, uv), sold, 1);
                    },
                    UnitView::Custom { variant: VariantView::Builder { built }, .. } => {
                        lemma_resolvable_push(s.units, (kv, uv), built, 0);
                    },
                    _ => {},
                }
            } else {
                assert(t.units[a] == (kv, uv));
            }
        }
        crate::yarp_meta::lemma_key_idx_push(s.units, (kv, uv), kv);
        assert(key_idx_v(t.units, kv) == s.units.len());
        assert(t.units[s.units.len() as int] == (kv, uv));
        lemma_resolvable_push(s.units, (kv, uv), s.ctx.unit_queue, 1);
        lemma_resolvable_push(s.units, (kv, uv), s.ctx.building_queue, 0);
        assert(crate::yarp_data::resolvable(t.units, t.ctx.unit_queue, 1)) by {
            let q = s.ctx.unit_queue;
            assert forall|k: int|
                0 <= k < q.push(kv).len() implies key_idx_v(t.units, #[trigger] q.push(kv)[k])
                    >= 0 && crate::yarp_data::rank(
                    t.units[key_idx_v(t.units, q.push(kv)[k])].1,
                ) <= 1 by {
                if k < q.len() {
                    assert(q.push(kv)[k] == q[k]);
                } else {
                    assert(q.push(kv)[k] == kv);
                }
            }
        }
        assert forall|a: int, b: int|
            0 <= a < b < t.units.len() implies t.units[a].0 != t.units[b].0 by {
            if b < s.units.len() {
            } else {
                assert(t.units[b].0 == kv);
                assert(t.units[a].0 == s.units[a].0);
            }
        }
        assert forall|a: int|
            0 <= a < t.units.len() implies unit_id_view(#[trigger] t.units[a].1) == t.units[a].0
        by {
            if a < s.units.len() {
                assert(t.units[a] == s.units[a]);
            } else {
                assert(t.units[a] == (kv, uv));
            }
        }
        assert forall|a: int|
            0 <= a < t.units.len() implies ((#[trigger] t.units[a].0) is Uid ==> has_uid(
            t.symbolic,
            t.units[a].0->Uid_uid,
        ) && t.units[a].0->Uid_constant == crate::outside::shouty_snake_of(
            t.units[a].0->Uid_uid,
        )) by {
            if a < s.units.len() {
                assert(t.units[a] == s.units[a]);
            } else {
                assert(t.units[a] == (kv, uv));
            }
        }
        assert forall|a: int|
            0 <= a < t.units.len() implies ((t.units[a].0 is Raw) <==> ((#[trigger] t.units[a].1)
                is Stock)) by {
            if a < s.units.len() {
                assert(t.units[a] == s.units[a]);
            } else {
                assert(t.units[a] == (kv, uv));
            }
        }
        assert forall|a: int|
            0 <= a < t.units.len() implies entry_groups_ok((#[trigger] t.units[a]).1) by {
            if a < s.units.len() {
                assert(t.units[a] == s.units[a]);
            } else {
                assert(t.units[a] == (kv, uv));
            }
        }
        assert forall|a: int|
            0 <= a < t.symbolic.len() implies #[trigger] units_has_key(
            t.units,
            IdView::Uid { uid: t.symbolic[a].0, constant: t.symbolic[a].1 },
        ) by {
            assert(t.symbolic[a] == s.symbolic[a]);
            assert(units_has_key(
                s.units,
                IdView::Uid { uid: s.symbolic[a].0, constant: s.symbolic[a].1 },
            ));
            let j = choose|j: int|
                0 <= j < s.units.len() && (#[trigger] s.units[j].0) == (IdView::Uid {
                    uid: s.symbolic[a].0,
                    constant: s.symbolic[a].1,
                });
            assert(t.units[j].0 == s.units[j].0);
        }
    }
}

// ---------------------------------------------------------------------------
// Statements of the generated code
// ---------------------------------------------------------------------------
/// How a sold or built identifier is written in generated code: a symbolic
/// identifier by its constant name, a built-in item by its raw literal.
#[derive(Debug, PartialEq, Eq, Clone)]
pub enum IdReference {
    Constant(String),
    Literal(String),
}

/// Mathematical model of an `IdReference`.
#[verifier::ext_equal]
pub enum RefView {
    Constant(Seq<char>),
    Literal(Seq<char>),
}

impl View for IdReference {
    type V = RefView;

    open spec fn view(&self) -> RefView {
        match self {
            IdReference::Constant(s) => RefView::Constant(s@),
            IdReference::Literal(s) => RefView::Literal(s@),
        }
    }
}

/// The raw token of a reference, at the view level.
pub open spec fn ref_text(r: RefView) -> Seq<char> {
    match r {
        RefView::Constant(s) => s,
        RefView::Literal(s) => s,
    }
}

impl IdReference {
    /// The raw token of this reference.
    pub fn to_string(&self) -> (r: String)
        ensures
            r@ == ref_text(self@),
    {
        match self {
            IdReference::Constant(s) => s.clone(),
            IdReference::Literal(s) => s.clone(),
        }
    }
}

/// How an identifier is referenced from a sold or built list.
pub open spec fn ref_of_id(id: IdView) -> RefView {
    match id {
        IdView::Uid { constant, .. } => RefView::Constant(constant),
        IdView::Raw { rawid } => RefView::Literal(rawid),
    }
}

/// Build the reference of one identifier.
fn ref_of(id: &UnitIdentifier) -> (r: IdReference)
    ensures
        r@ == ref_of_id(id@),
{
    match id {
        UnitIdentifier::UID { constant_name, .. } => IdReference::Constant(constant_name.clone()),
        UnitIdentifier::RawID { rawid } => IdReference::Literal(rawid.clone()),
    }
}

/// One definition statement for a unit or a building.
#[derive(Debug, Clone, PartialEq, Eq)]
pub struct UnitDefStatement {
    pub constant: String,
    pub model: String,
    pub name: String,
}

impl View for UnitDefStatement {
    type V = (Seq<char>, Seq<char>, Seq<char>);

    open spec fn view(&self) -> (Seq<char>, Seq<char>, Seq<char>) {
        (self.constant@, self.model@, self.name@)
    }
}

/// One definition statement for a shop or a builder, with its inlined list
/// of references.
#[derive(Debug, Clone, PartialEq, Eq)]
pub struct ListDefStatement {
    pub constant: String,
    pub model: String,
    pub name: String,
    pub refs: Vec<IdReference>,
}

impl View for ListDefStatement {
    type V = (Seq<char>, Seq<char>, Seq<char>, Seq<RefView>);

    open spec fn view(&self) -> (Seq<char>, Seq<char>, Seq<char>, Seq<RefView>) {
        (self.constant@, self.model@, self.name@, self.refs@.map_values(|x: IdReference| x@))
    }
}

/// One instantiate-at-coordinates statement for a shop.
#[derive(Debug, Clone, PartialEq, Eq)]
pub struct PlacementStatement {
    pub constant: String,
    pub x: i64,
    pub y: i64,
}

impl View for PlacementStatement {
    type V = (Seq<char>, int, int);

    open spec fn view(&self) -> (Seq<char>, int, int) {
        (self.constant@, self.x as int, self.y as int)
    }
}

/// The constant names of a group, in group order.
pub open spec fn constants_of(g: Seq<(IdView, UnitView)>) -> Seq<Seq<char>> {
    g.map_values(|p: (IdView, UnitView)| p.0->Uid_constant)
}

/// The definition statements of a unit or building group.
pub open spec fn simple_defs_of(g: Seq<(IdView, UnitView)>) -> Seq<(Seq<char>, Seq<char>, Seq<char>)> {
    g.map_values(
        |p: (IdView, UnitView)| (p.0->Uid_constant, p.1->Custom_model, p.1->Custom_name),
    )
}

/// The references of a list of identifiers, in list order.
pub open spec fn refs_of_ids(s: Seq<IdView>) -> Seq<RefView> {
    s.map_values(|k: IdView| ref_of_id(k))
}

/// The definition statements of a shop group, each inlining its sold list.
pub open spec fn shop_defs_of(g: Seq<(IdView, UnitView)>) -> Seq<
    (Seq<char>, Seq<char>, Seq<char>, Seq<RefView>),
> {
    g.map_values(
        |p: (IdView, UnitView)|
            (
                p.0->Uid_constant,
                p.1->Custom_model,
                p.1->Custom_name,
                refs_of_ids(p.1->Custom_variant->Shop_sold),
            ),
    )
}

/// The definition statements of a builder group, each inlining its built
/// list.
pub open spec fn builder_defs_of(g: Seq<(IdView, UnitView)>) -> Seq<
    (Seq<char>, Seq<char>, Seq<char>, Seq<RefView>),
> {
    g.map_values(
        |p: (IdView, UnitView)|
            (
                p.0->Uid_constant,
                p.1->Custom_model,
                p.1->Custom_name,
                refs_of_ids(p.1->Custom_variant->Builder_built),
            ),
    )
}

/// The placement statements of a shop group under the given coordinates.
pub open spec fn placements_of(g: Seq<(IdView, UnitView)>, coords: Seq<(int, int)>) -> Seq<
    (Seq<char>, int, int),
> {
    Seq::new(g.len(), |k: int| (g[k].0->Uid_constant, coords[k].0, coords[k].1))
}

/// The forward table with each pair swapped: the reverse lookup table.
pub open spec fn swapped(s: Seq<(Seq<char>, Seq<char>)>) -> Seq<(Seq<char>, Seq<char>)> {
    s.map_values(|p: (Seq<char>, Seq<char>)| (p.1, p.0))
}

/// The model table: each registered identifier's reference with its model
/// path, in registration order.
pub open spec fn model_table_of(models: Seq<(IdView, Seq<char>)>) -> Seq<(RefView, Seq<char>)> {
    models.map_values(|p: (IdView, Seq<char>)| (ref_of_id(p.0), p.1))
}

/// Everything the emitter generates, at the view level.
#[verifier::ext_equal]
pub ghost struct GeneratedView {
    pub constants: Seq<Seq<char>>,
    pub unit_definitions: Seq<(Seq<char>, Seq<char>, Seq<char>)>,
    pub builder_definitions: Seq<(Seq<char>, Seq<char>, Seq<char>, Seq<RefView>)>,
    pub shop_definitions: Seq<(Seq<char>, Seq<char>, Seq<char>, Seq<RefView>)>,
    pub building_definitions: Seq<(Seq<char>, Seq<char>, Seq<char>)>,
    pub shop_placements: Seq<(Seq<char>, int, int)>,
    pub uid_registry_chunks: Seq<Seq<(Seq<char>, Seq<char>)>>,
    pub uid_registry_aggregate: Seq<int>,
    pub reverse_registry_chunks: Seq<Seq<(Seq<char>, Seq<char>)>>,
    pub reverse_registry_aggregate: Seq<int>,
    pub shop_registry: Seq<Seq<char>>,
    pub model_registry_chunks: Seq<Seq<(RefView, Seq<char>)>>,
    pub model_registry_aggregate: Seq<int>,
}

/// The ascending indices `0 .. n`.
pub open spec fn iota(n: int) -> Seq<int> {
    Seq::new(n as nat, |i: int| i)
}

/// What the emitter generates from a pipeline state: constants grouped
/// units, shops, buildings, builders; one definition per custom entity; one
/// placement per shop in emission order; the forward, reverse and model
/// lookup tables split into sub-blocks of at most `CHUNK_SIZE` entries, each
/// with an aggregator invoking the sub-blocks in ascending order; and the
/// shop membership set.
pub open spec fn emit_spec(s: PipelineView) -> GeneratedView {
    let ug = unit_group(s.units);
    let sg = shop_group(s.units);
    let bg = building_group(s.units);
    let dg = builder_group(s.units);
    GeneratedView {
        constants: constants_of(ug) + constants_of(sg) + constants_of(bg) + constants_of(dg),
        unit_definitions: simple_defs_of(ug),
        builder_definitions: builder_defs_of(dg),
        shop_definitions: shop_defs_of(sg),
        building_definitions: simple_defs_of(bg),
        shop_placements: placements_of(sg, grid_coords(s.ctx.layout)),
        uid_registry_chunks: chunks_of(s.symbolic),
        uid_registry_aggregate: iota(chunks_of(s.symbolic).len() as int),
        reverse_registry_chunks: chunks_of(swapped(s.symbolic)),
        reverse_registry_aggregate: iota(chunks_of(swapped(s.symbolic)).len() as int),
        shop_registry: constants_of(sg),
        model_registry_chunks: chunks_of(model_table_of(s.models)),
        model_registry_aggregate: iota(chunks_of(model_table_of(s.models)).len() as int),
    }
}

/// Everything the emitter generates, as plain statement values.  A thin
/// renderer turns each statement into one line of target-language text; the
/// statement order, the chunk sizes and the placement arithmetic are fixed
/// here.
#[derive(Debug, Clone)]
pub struct GeneratedCode {
    pub constants: Vec<String>,
    pub unit_definitions: Vec<UnitDefStatement>,
    pub builder_definitions: Vec<ListDefStatement>,
    pub shop_definitions: Vec<ListDefStatement>,
    pub building_definitions: Vec<UnitDefStatement>,
    pub shop_placements: Vec<PlacementStatement>,
    pub uid_registry_chunks: Vec<Vec<(String, String)>>,
    pub uid_registry_aggregate: Vec<usize>,
    pub reverse_registry_chunks: Vec<Vec<(String, String)>>,
    pub reverse_registry_aggregate: Vec<usize>,
    pub shop_registry: Vec<String>,
    pub model_registry_chunks: Vec<Vec<(IdReference, String)>>,
    pub model_registry_aggregate: Vec<usize>,
}

impl View for GeneratedCode {
    type V = GeneratedView;

    open spec fn view(&self) -> GeneratedView {
        GeneratedView {
            constants: self.constants@.map_values(|s: String| s@),
            unit_definitions: self.unit_definitions@.map_values(|d: UnitDefStatement| d@),
            builder_definitions: self.builder_definitions@.map_values(|d: ListDefStatement| d@),
            shop_definitions: self.shop_definitions@.map_values(|d: ListDefStatement| d@),
            building_definitions: self.building_definitions@.map_values(|d: UnitDefStatement| d@),
            shop_placements: self.shop_placements@.map_values(|d: PlacementStatement| d@),
            uid_registry_chunks: self.uid_registry_chunks@.map_values(
                |c: Vec<(String, String)>| crate::yarp_meta::pairs_view(c@),
            ),
            uid_registry_aggregate: self.uid_registry_aggregate@.map_values(|u: usize| u as int),
            reverse_registry_chunks: self.reverse_registry_chunks@.map_values(
                |c: Vec<(String, String)>| crate::yarp_meta::pairs_view(c@),
            ),
            reverse_registry_aggregate: self.reverse_registry_aggregate@.map_values(
                |u: usize| u as int,
            ),
            shop_registry: self.shop_registry@.map_values(|s: String| s@),
            model_registry_chunks: self.model_registry_chunks@.map_values(
                |c: Vec<(IdReference, String)>| c@.map_values(
                    |p: (IdReference, String)| (p.0@, p.1@),
                ),
            ),
            model_registry_aggregate: self.model_registry_aggregate@.map_values(
                |u: usize| u as int,
            ),
        }
    }
}

/// Chunking commutes with an element-wise map.
pub proof fn lemma_chunks_of_map<T, U>(s: Seq<T>, f: spec_fn(T) -> U)
    ensures
        chunks_of(s.map_values(f)) == chunks_of(s).map_values(|c: Seq<T>| c.map_values(f)),
    decreases s.len(),
{
    let m = s.map_values(f);
    if s.len() == 0 {
        assert(chunks_of(m) =~= chunks_of(s).map_values(|c: Seq<T>| c.map_values(f)));
    } else if s.len() <= 40 {
        assert(chunks_of(m) == seq![m]);
        assert(chunks_of(s).map_values(|c: Seq<T>| c.map_values(f)) =~= seq![m]);
    } else {
        lemma_chunks_of_map(s.skip(40), f);
        assert(m.take(40) =~= s.take(40).map_values(f));
        assert(m.skip(40) =~= s.skip(40).map_values(f));
        assert(chunks_of(m) == seq![m.take(40)] + chunks_of(m.skip(40)));
        assert(chunks_of(m) =~= chunks_of(s).map_values(|c: Seq<T>| c.map_values(f)));
    }
}

/// The references of a list of identifiers.
fn refs_list(ids: &Vec<UnitIdentifier>) -> (r: Vec<IdReference>)
    ensures
        r@.map_values(|x: IdReference| x@) == refs_of_ids(crate::yarp_meta::ids_view(ids@)),
{
    let mut r: Vec<IdReference> = Vec::new();
    let mut k: usize = 0;
    while k < ids.len()
        invariant
            k <= ids@.len(),
            r@.len() == k,
            forall|j: int| 0 <= j < k ==> r@[j]@ == ref_of_id(ids@[j]@),
        decreases ids@.len() - k,
    {
        r.push(ref_of(&ids[k]));
        k += 1;
    }
    proof {
        assert(r@.map_values(|x: IdReference| x@) =~= refs_of_ids(
            crate::yarp_meta::ids_view(ids@),
        ));
    }
    r
}

/// The constant names of a list of simple definitions.
fn constants_from_simple(defs: &Vec<UnitDefStatement>) -> (r: Vec<String>)
    ensures
        r@.len() == defs@.len(),
        forall|j: int| 0 <= j < defs@.len() ==> (#[trigger] r@[j])@ == defs@[j]@.0,
{
    let mut r: Vec<String> = Vec::new();
    let mut k: usize = 0;
    while k < defs.len()
        invariant
            k <= defs@.len(),
            r@.len() == k,
            forall|j: int| 0 <= j < k ==> r@[j]@ == defs@[j].constant@,
        decreases defs@.len() - k,
    {
        r.push(defs[k].constant.clone());
        k += 1;
    }
    r
}

/// The constant names of a list of definitions with reference lists.
fn constants_from_list(defs: &Vec<ListDefStatement>) -> (r: Vec<String>)
    ensures
        r@.len() == defs@.len(),
        forall|j: int| 0 <= j < defs@.len() ==> (#[trigger] r@[j])@ == defs@[j]@.0,
{
    let mut r: Vec<String> = Vec::new();
    let mut k: usize = 0;
    while k < defs.len()
        invariant
            k <= defs@.len(),
            r@.len() == k,
            forall|j: int| 0 <= j < k ==> r@[j]@ == defs@[j].constant@,
        decreases defs@.len() - k,
    {
        r.push(defs[k].constant.clone());
        k += 1;
    }
    r
}

// ---------------------------------------------------------------------------
// The pipeline
// ---------------------------------------------------------------------------
/// One pipeline run: the directive-consumption state and the registries it
/// fills, ready for emission.
pub struct CodeGenerator {
    pub context: RecordConsumerContext,
    pub registries: Registries,
}

impl CodeGenerator {
    /// The whole state of this run, at the view level.
    pub open spec fn pipeline(&self) -> PipelineView {
        pipeline_of(self.context, self.registries.id, self.registries.unit, self.registries.model)
    }

    /// The run's invariant.
    pub open spec fn wf(&self) -> bool {
        &&& self.registries.id.wf()
        &&& pipeline_wf(self.pipeline())
    }

    /// A fresh pipeline run with empty state.
    pub fn new() -> (r: CodeGenerator)
        ensures
            r.wf(),
            r.pipeline() == initial_pipeline(),
            r.registries.id.allocations() == 0,
    {
        let r = CodeGenerator {
            context: RecordConsumerContext::new(),
            registries: Registries::new(),
        };
        proof {
            assert(r.pipeline() =~~= initial_pipeline());
            lemma_initial_pipeline_wf();
        }
        r
    }

    /// Fold one directive into the run, as `consume_spec` says.  On an error
    /// the run is unchanged.
    pub fn process_record(&mut self, record: Record) -> (r: Result<(), YarpError>)
        requires
            old(self).wf(),
            old(self).registries.id.allocations() < crate::yarp_meta::ID_CAPACITY,
        ensures
            final(self).wf(),
            r is Ok ==> final(self).registries.id.allocations() == old(
                self,
            ).registries.id.allocations() + crate::yarp_meta::alloc_delta(record@),
            r is Err ==> final(self).registries.id.allocations() == old(
                self,
            ).registries.id.allocations(),
            r is Ok <==> consume_spec(record@, old(self).pipeline()) is Ok,
            r is Ok ==> final(self).pipeline() == consume_spec(record@, old(self).pipeline())->Ok_0,
            r is Err ==> r->Err_0@ == consume_spec(record@, old(self).pipeline())->Err_0
                && *final(self) == *old(self),
    {
        let ghost rv = record@;
        let ghost s0 = self.pipeline();
        let res = consume_record(
            record,
            &mut self.context,
            &mut self.registries.id,
            &mut self.registries.unit,
            &mut self.registries.model,
        );
        proof {
            if res is Ok {
                lemma_consume_preserves_wf(rv, s0);
            } else {
                assert(*self =~~= *old(self));
            }
        }
        res
    }

    /// Render the final registries into the generated statements, exactly as
    /// `emit_spec` says.
    #[verifier::loop_isolation(false)]
    #[verifier::rlimit(60)]
    pub fn emit(&self) -> (r: GeneratedCode)
        requires
            self.wf(),
            self.context.layout@.len() <= PLACEMENT_LIMIT,
        ensures
            r@ == emit_spec(self.pipeline()),
    {
        let ghost sp = self.pipeline();
        let entries = self.registries.unit.entries();
        let ghost lv = self.registries.unit@;
        proof {
            assert(crate::yarp_meta::lifted_units(entries@) == lv);
            assert(sp.units == lv);
        }
        let mut unit_defs: Vec<UnitDefStatement> = Vec::new();
        let mut building_defs: Vec<UnitDefStatement> = Vec::new();
        let mut shop_defs: Vec<ListDefStatement> = Vec::new();
        let mut builder_defs: Vec<ListDefStatement> = Vec::new();
        let mut i: usize = 0;
        proof {
            reveal(Seq::filter);
            assert(lv.take(0) =~= Seq::<(IdView, UnitView)>::empty());
            assert(unit_defs@.map_values(|d: UnitDefStatement| d@) =~= simple_defs_of(
                unit_group(lv.take(0)),
            ));
            assert(building_defs@.map_values(|d: UnitDefStatement| d@) =~= simple_defs_of(
                building_group(lv.take(0)),
            ));
            assert(shop_defs@.map_values(|d: ListDefStatement| d@) =~= shop_defs_of(
                shop_group(lv.take(0)),
            ));
            assert(builder_defs@.map_values(|d: ListDefStatement| d@) =~= builder_defs_of(
                builder_group(lv.take(0)),
            ));
        }
        while i < entries.len()
            invariant
                i <= entries@.len(),
                unit_defs@.map_values(|d: UnitDefStatement| d@) == simple_defs_of(
                    unit_group(lv.take(i as int)),
                ),
                building_defs@.map_values(|d: UnitDefStatement| d@) == simple_defs_of(
                    building_group(lv.take(i as int)),
                ),
                shop_defs@.map_values(|d: ListDefStatement| d@) == shop_defs_of(
                    shop_group(lv.take(i as int)),
                ),
                builder_defs@.map_values(|d: ListDefStatement| d@) == builder_defs_of(
                    builder_group(lv.take(i as int)),
                ),
            decreases entries@.len() - i,
        {
            proof {
                reveal(Seq::filter);
                assert(lv.take(i + 1).drop_last() =~= lv.take(i as int));
                assert(lv.take(i + 1).last() == lv[i as int]);
                assert(lv[i as int] == (entries@[i as int].0@, entries@[i as int].1@));
            }
            let p = &entries[i];
            match &p.1 {
                YarpUnit::Custom { variant, name, model, .. } => {
                    proof {
                        assert(unit_id_view(lv[i as int].1) == lv[i as int].0);
                        assert(!(lv[i as int].1 is Stock));
                        assert(lv[i as int].0 is Uid);
                    }
                    let constant = p.0.constant_name().to_owned();
                    match variant {
                        crate::yarp_meta::YarpUnitVariant::Unit => {
                            let d = UnitDefStatement {
                                constant,
                                model: model.clone(),
                                name: name.clone(),
                            };
                            let ghost dv = d@;
                            let ghost pre = unit_defs@;
                            unit_defs.push(d);
                            proof {
                                reveal(Seq::filter);
                                assert(is_unit(lv[i as int]));
                                let g1 = unit_group(lv.take(i + 1));
                                let g0 = unit_group(lv.take(i as int));
                                assert(g1 == g0.push(lv[i as int]));
                                assert(dv == (
                                    lv[i as int].0->Uid_constant,
                                    lv[i as int].1->Custom_model,
                                    lv[i as int].1->Custom_name,
                                ));
                                assert forall|j: int|
                                    0 <= j < unit_defs@.len() implies (#[trigger] unit_defs@[j])@
                                    == simple_defs_of(g1)[j] by {
                                    if j < pre.len() {
                                        assert(pre.map_values(|d: UnitDefStatement| d@)[j]
                                            == pre[j]@);
                                        assert(unit_defs@[j] == pre[j]);
                                        assert(g1[j] == g0[j]);
                                    } else {
                                        assert(unit_defs@[j]@ == dv);
                                        assert(g1[j] == lv[i as int]);
                                    }
                                }
                                assert(unit_defs@.map_values(|d: UnitDefStatement| d@)
                                    =~= simple_defs_of(unit_group(lv.take(i + 1))));
                                assert(building_group(lv.take(i + 1)) == building_group(
                                    lv.take(i as int),
                                ));
                                assert(shop_group(lv.take(i + 1)) == shop_group(lv.take(i as int)));
                                assert(builder_group(lv.take(i + 1)) == builder_group(
                                    lv.take(i as int),
                                ));
                            }
                        },
                        crate::yarp_meta::YarpUnitVariant::Building => {
                            let d = UnitDefStatement {
                                constant,
                                model: model.clone(),
                                name: name.clone(),
                            };
                            let ghost dv = d@;
                            let ghost pre = building_defs@;
                            building_defs.push(d);
                            proof {
                                reveal(Seq::filter);
                                assert(is_building(lv[i as int]));
                                let g1 = building_group(lv.take(i + 1));
                                let g0 = building_group(lv.take(i as int));
                                assert(g1 == g0.push(lv[i as int]));
                                assert(dv == (
                                    lv[i as int].0->Uid_constant,
                                    lv[i as int].1->Custom_model,
                                    lv[i as int].1->Custom_name,
                                ));
                                assert forall|j: int|
                                    0 <= j < building_defs@.len() implies (
                                    #[trigger] building_defs@[j])@ == simple_defs_of(g1)[j] by {
                                    if j < pre.len() {
                                        assert(pre.map_values(|d: UnitDefStatement| d@)[j]
                                            == pre[j]@);
                                        assert(building_defs@[j] == pre[j]);
                                        assert(g1[j] == g0[j]);
                                    } else {
                                        assert(building_defs@[j]@ == dv);
                                        assert(g1[j] == lv[i as int]);
                                    }
                                }
                                assert(building_defs@.map_values(|d: UnitDefStatement| d@)
                                    =~= simple_defs_of(building_group(lv.take(i + 1))));
                                assert(unit_group(lv.take(i + 1)) == unit_group(lv.take(i as int)));
                                assert(shop_group(lv.take(i + 1)) == shop_group(lv.take(i as int)));
                                assert(builder_group(lv.take(i + 1)) == builder_group(
                                    lv.take(i as int),
                                ));
                            }
                        },
                        crate::yarp_meta::YarpUnitVariant::UnitShop { sold_ids, .. } => {
                            let refs = refs_list(sold_ids);
                            let d = ListDefStatement {
                                constant,
                                model: model.clone(),
                                name: name.clone(),
                                refs,
                            };
                            let ghost dv = d@;
                            let ghost pre = shop_defs@;
                            shop_defs.push(d);
                            proof {
                                reveal(Seq::filter);
                                assert(is_shop(lv[i as int]));
                                let g1 = shop_group(lv.take(i + 1));
                                let g0 = shop_group(lv.take(i as int));
                                assert(g1 == g0.push(lv[i as int]));
                                assert(dv == (
                                    lv[i as int].0->Uid_constant,
                                    lv[i as int].1->Custom_model,
                                    lv[i as int].1->Custom_name,
                                    refs_of_ids(lv[i as int].1->Custom_variant->Shop_sold),
                                ));
                                assert forall|j: int|
                                    0 <= j < shop_defs@.len() implies (#[trigger] shop_defs@[j])@
                                    == shop_defs_of(g1)[j] by {
                                    if j < pre.len() {
                                        assert(pre.map_values(|d: ListDefStatement| d@)[j]
                                            == pre[j]@);
                                        assert(shop_defs@[j] == pre[j]);
                                        assert(g1[j] == g0[j]);
                                    } else {
                                        assert(shop_defs@[j]@ == dv);
                                        assert(g1[j] == lv[i as int]);
                                    }
                                }
                                assert(shop_defs@.map_values(|d: ListDefStatement| d@)
                                    =~= shop_defs_of(shop_group(lv.take(i + 1))));
                                assert(unit_group(lv.take(i + 1)) == unit_group(lv.take(i as int)));
                                assert(building_group(lv.take(i + 1)) == building_group(
                                    lv.take(i as int),
                                ));
                                assert(builder_group(lv.take(i + 1)) == builder_group(
                                    lv.take(i as int),
                                ));
                            }
                        },
                        crate::yarp_meta::YarpUnitVariant::Builder { built_ids } => {
                            let refs = refs_list(built_ids);
                            let d = ListDefStatement {
                                constant,
                                model: model.clone(),
                                name: name.clone(),
                                refs,
                            };
                            let ghost dv = d@;
                            let ghost pre = builder_defs@;
                            builder_defs.push(d);
                            proof {
                                reveal(Seq::filter);
                                assert(is_builder(lv[i as int]));
                                let g1 = builder_group(lv.take(i + 1));
                                let g0 = builder_group(lv.take(i as int));
                                assert(g1 == g0.push(lv[i as int]));
                                assert(dv == (
                                    lv[i as int].0->Uid_constant,
                                    lv[i as int].1->Custom_model,
                                    lv[i as int].1->Custom_name,
                                    refs_of_ids(lv[i as int].1->Custom_variant->Builder_built),
                                ));
                                assert forall|j: int|
                                    0 <= j < builder_defs@.len() implies (
                                    #[trigger] builder_defs@[j])@ == builder_defs_of(g1)[j] by {
                                    if j < pre.len() {
                                        assert(pre.map_values(|d: ListDefStatement| d@)[j]
                                            == pre[j]@);
                                        assert(builder_defs@[j] == pre[j]);
                                        assert(g1[j] == g0[j]);
                                    } else {
                                        assert(builder_defs@[j]@ == dv);
                                        assert(g1[j] == lv[i as int]);
                                    }
                                }
                                assert(builder_defs@.map_values(|d: ListDefStatement| d@)
                                    =~= builder_defs_of(builder_group(lv.take(i + 1))));
                                assert(unit_group(lv.take(i + 1)) == unit_group(lv.take(i as int)));
                                assert(building_group(lv.take(i + 1)) == building_group(
                                    lv.take(i as int),
                                ));
                                assert(shop_group(lv.take(i + 1)) == shop_group(lv.take(i as int)));
                            }
                        },
                    }
                },
                YarpUnit::Stock { .. } => {
                    proof {
                        reveal(Seq::filter);
                        assert(lv[i as int].1 is Stock);
                        assert(unit_group(lv.take(i + 1)) == unit_group(lv.take(i as int)));
                        assert(building_group(lv.take(i + 1)) == building_group(lv.take(i as int)));
                        assert(shop_group(lv.take(i + 1)) == shop_group(lv.take(i as int)));
                        assert(builder_group(lv.take(i + 1)) == builder_group(lv.take(i as int)));
                    }
                },
            }
            i += 1;
        }
        proof {
            assert(lv.take(entries@.len() as int) =~= lv);
        }
        let ghost ug = unit_group(lv);
        let ghost sg = shop_group(lv);
        let ghost bg = building_group(lv);
        let ghost dg = builder_group(lv);
        // constant declarations, grouped units, shops, buildings, builders
        let mut constants = constants_from_simple(&unit_defs);
        let ghost vu = constants@;
        let mut c_shops = constants_from_list(&shop_defs);
        let ghost vs = c_shops@;
        let mut c_buildings = constants_from_simple(&building_defs);
        let ghost vb = c_buildings@;
        let mut c_builders = constants_from_list(&builder_defs);
        let ghost vd = c_builders@;
        constants.append(&mut c_shops);
        constants.append(&mut c_buildings);
        constants.append(&mut c_builders);
        proof {
            assert(constants@ == vu + vs + vb + vd);
            assert(unit_defs@.map_values(|d: UnitDefStatement| d@) == simple_defs_of(ug));
            assert(shop_defs@.map_values(|d: ListDefStatement| d@) == shop_defs_of(sg));
            assert(building_defs@.map_values(|d: UnitDefStatement| d@) == simple_defs_of(bg));
            assert(builder_defs@.map_values(|d: ListDefStatement| d@) == builder_defs_of(dg));
            assert(vu.len() == ug.len() && vs.len() == sg.len() && vb.len() == bg.len()
                && vd.len() == dg.len());
            let rhs = constants_of(ug) + constants_of(sg) + constants_of(bg) + constants_of(dg);
            assert forall|j: int|
                0 <= j < constants@.len() implies (#[trigger] constants@[j])@ == rhs[j] by {
                let a = ug.len() as int;
                let b = a + sg.len();
                let c = b + bg.len();
                if j < a {
                    assert(constants@[j] == vu[j]);
                    assert(unit_defs@.map_values(|d: UnitDefStatement| d@)[j] == unit_defs@[j]@);
                    assert(simple_defs_of(ug)[j].0 == constants_of(ug)[j]);
                } else if j < b {
                    assert(constants@[j] == vs[j - a]);
                    assert(shop_defs@.map_values(|d: ListDefStatement| d@)[j - a] == shop_defs@[j
                        - a]@);
                    assert(shop_defs_of(sg)[j - a].0 == constants_of(sg)[j - a]);
                    assert(rhs[j] == constants_of(sg)[j - a]);
                } else if j < c {
                    assert(constants@[j] == vb[j - b]);
                    assert(building_defs@.map_values(|d: UnitDefStatement| d@)[j - b]
                        == building_defs@[j - b]@);
                    assert(simple_defs_of(bg)[j - b].0 == constants_of(bg)[j - b]);
                    assert(rhs[j] == constants_of(bg)[j - b]);
                } else {
                    assert(constants@[j] == vd[j - c]);
                    assert(builder_defs@.map_values(|d: ListDefStatement| d@)[j - c]
                        == builder_defs@[j - c]@);
                    assert(builder_defs_of(dg)[j - c].0 == constants_of(dg)[j - c]);
                    assert(rhs[j] == constants_of(dg)[j - c]);
                }
            }
            assert(constants@.map_values(|s: String| s@) =~= constants_of(ug) + constants_of(sg)
                + constants_of(bg) + constants_of(dg));
        }
        // the placement block
        let coords = grid_positions(&self.context.layout);
        proof {
            lemma_grid_walk_placed(self.context.layout@, 0, 0);
            assert(coords@.len() == grid_coords(sp.ctx.layout).len());
            assert(shop_defs@.len() == sg.len());
        }
        let mut placements: Vec<PlacementStatement> = Vec::new();
        let mut k: usize = 0;
        while k < shop_defs.len()
            invariant
                k <= shop_defs@.len(),
                placements@.len() == k,
                forall|j: int|
                    0 <= j < k ==> (#[trigger] placements@[j])@ == placements_of(
                        sg,
                        grid_coords(sp.ctx.layout),
                    )[j],
            decreases shop_defs@.len() - k,
        {
            proof {
                assert(shop_defs@[k as int]@ == shop_defs_of(sg)[k as int]);
                assert(coords@.map_values(|c: (i64, i64)| (c.0 as int, c.1 as int))[k as int]
                    == grid_coords(sp.ctx.layout)[k as int]);
            }
            placements.push(
                PlacementStatement {
                    constant: shop_defs[k].constant.clone(),
                    x: coords[k].0,
                    y: coords[k].1,
                },
            );
            k += 1;
        }
        proof {
            assert(placements@.map_values(|d: PlacementStatement| d@) =~= placements_of(
                sg,
                grid_coords(sp.ctx.layout),
            ));
        }
        // the shop membership set
        let shop_registry = constants_from_list(&shop_defs);
        proof {
            assert forall|j: int|
                0 <= j < shop_registry@.len() implies (#[trigger] shop_registry@[j])@
                == constants_of(sg)[j] by {
                assert(shop_defs@.map_values(|d: ListDefStatement| d@)[j] == shop_defs@[j]@);
                assert(shop_defs_of(sg)[j].0 == constants_of(sg)[j]);
            }
            assert(shop_registry@.map_values(|s: String| s@) =~= constants_of(sg));
        }
        // forward and reverse lookup tables, chunked
        let uid_pairs = self.registries.id.symbolic_pairs();
        let mut rev_pairs: Vec<(String, String)> = Vec::new();
        let mut k2: usize = 0;
        while k2 < uid_pairs.len()
            invariant
                k2 <= uid_pairs@.len(),
                rev_pairs@.len() == k2,
                forall|j: int|
                    0 <= j < k2 ==> (#[trigger] rev_pairs@[j]).0@ == uid_pairs@[j].1@
                        && rev_pairs@[j].1@ == uid_pairs@[j].0@,
            decreases uid_pairs@.len() - k2,
        {
            rev_pairs.push((uid_pairs[k2].1.clone(), uid_pairs[k2].0.clone()));
            k2 += 1;
        }
        proof {
            assert(crate::yarp_meta::pairs_view(rev_pairs@) =~= swapped(sp.symbolic));
        }
        let ghost uid_pairs_view = uid_pairs@;
        let ghost rev_pairs_view = rev_pairs@;
        let uid_registry_chunks = chunk_entries(uid_pairs);
        let uid_registry_aggregate = index_list(uid_registry_chunks.len());
        let reverse_registry_chunks = chunk_entries(rev_pairs);
        let reverse_registry_aggregate = index_list(reverse_registry_chunks.len());
        proof {
            lemma_chunks_of_map(uid_pairs_view, |p: (String, String)| (p.0@, p.1@));
            assert(uid_pairs_view.map_values(|p: (String, String)| (p.0@, p.1@)) =~= sp.symbolic);
            assert(uid_registry_chunks@.map_values(
                |c: Vec<(String, String)>| crate::yarp_meta::pairs_view(c@),
            ) =~~= chunks_of(sp.symbolic));
            lemma_chunks_of_map(rev_pairs_view, |p: (String, String)| (p.0@, p.1@));
            assert(rev_pairs_view.map_values(|p: (String, String)| (p.0@, p.1@)) =~= swapped(
                sp.symbolic,
            ));
            assert(reverse_registry_chunks@.map_values(
                |c: Vec<(String, String)>| crate::yarp_meta::pairs_view(c@),
            ) =~~= chunks_of(swapped(sp.symbolic)));
        }
        // the model lookup table, chunked
        let m_entries = self.registries.model.entries();
        let mut m_pairs: Vec<(IdReference, String)> = Vec::new();
        let mut k3: usize = 0;
        while k3 < m_entries.len()
            invariant
                k3 <= m_entries@.len(),
                m_pairs@.len() == k3,
                forall|j: int|
                    0 <= j < k3 ==> (#[trigger] m_pairs@[j]).0@ == ref_of_id(m_entries@[j].0@)
                        && m_pairs@[j].1@ == m_entries@[j].1@,
            decreases m_entries@.len() - k3,
        {
            m_pairs.push((ref_of(&m_entries[k3].0), m_entries[k3].1.clone()));
            k3 += 1;
        }
        proof {
            assert(m_pairs@.map_values(|p: (IdReference, String)| (p.0@, p.1@)) =~= model_table_of(
                sp.models,
            ));
        }
        let ghost m_pairs_view = m_pairs@;
        let model_registry_chunks = chunk_entries(m_pairs);
        let model_registry_aggregate = index_list(model_registry_chunks.len());
        proof {
            lemma_chunks_of_map(m_pairs_view, |p: (IdReference, String)| (p.0@, p.1@));
            assert(m_pairs_view.map_values(|p: (IdReference, String)| (p.0@, p.1@))
                =~= model_table_of(sp.models));
            assert(model_registry_chunks@.map_values(
                |c: Vec<(IdReference, String)>| c@.map_values(
                    |p: (IdReference, String)| (p.0@, p.1@),
                ),
            ) =~~= chunks_of(model_table_of(sp.models)));
        }
        let result = GeneratedCode {
            constants,
            unit_definitions: unit_defs,
            builder_definitions: builder_defs,
            shop_definitions: shop_defs,
            building_definitions: building_defs,
            shop_placements: placements,
            uid_registry_chunks,
            uid_registry_aggregate,
            reverse_registry_chunks,
            reverse_registry_aggregate,
            shop_registry,
            model_registry_chunks,
            model_registry_aggregate,
        };
        proof {
            assert(result@.uid_registry_aggregate =~= iota(chunks_of(sp.symbolic).len() as int));
            assert(result@.reverse_registry_aggregate =~= iota(
                chunks_of(swapped(sp.symbolic)).len() as int,
            ));
            assert(result@.model_registry_aggregate =~= iota(
                chunks_of(model_table_of(sp.models)).len() as int,
            ));
            assert(result@ =~= emit_spec(sp));
        }
        result
    }

    /// Serialize this run's registries into the interchange document.  The
    /// run invariant guarantees the registry is serializable.
    pub fn export(&self) -> (r: crate::yarp_data::YarpData)
        requires
            self.wf(),
        ensures
            r@ == crate::yarp_data::serialize_spec(self.registries.unit@, self.registries.model@),
    {
        proof {
            lemma_wf_serializable(self.pipeline());
        }
        crate::yarp_data::YarpData::from_meta(
            &self.registries.id,
            &self.registries.unit,
            &self.registries.model,
        )
    }
}

/// The indices `0 .. n`, in ascending order: the order in which an
/// aggregator invokes the sub-blocks.
pub fn index_list(n: usize) -> (r: Vec<usize>)
    ensures
        r@.len() == n,
        forall|i: int| 0 <= i < n ==> r@[i] == i,
{
    let mut r: Vec<usize> = Vec::new();
    let mut i: usize = 0;
    while i < n
        invariant
            i <= n,
            r@.len() == i,
            forall|j: int| 0 <= j < i ==> r@[j] == j,
        decreases n - i,
    {
        r.push(i);
        i += 1;
    }
    r
}

} // verus!
