use vstd::prelude::*;
use crate::codegen::is_shop;
use crate::codegen::builder_group;
use crate::codegen::building_group;
use crate::codegen::emit_spec;
use crate::codegen::lemma_chunks_of;
use crate::codegen::lemma_consume_preserves_wf;
use crate::codegen::pipeline_wf;
use crate::codegen::shop_group;
use crate::codegen::swapped;
use crate::codegen::unit_group;
use crate::codegen::units_has_key;
use crate::codegen::custom_count;
use crate::records::RecordView;
use crate::yarp_meta::IdView;
use crate::yarp_meta::PipelineView;
use crate::yarp_meta::UnitView;
use crate::yarp_meta::VariantView;
use crate::yarp_meta::consume_spec;
use crate::yarp_meta::initial_pipeline;

verus! {

// ---------------------------------------------------------------------------
// Runs of whole directive streams
// ---------------------------------------------------------------------------
/// The state after consuming the first `n` directives of a stream, or the
/// first fatal error.
pub open spec fn run_spec(recs: Seq<RecordView>, n: int) -> Result<PipelineView, crate::errors::ErrorView>
    decreases n,
{
    if n <= 0 || n > recs.len() {
        Result::Ok(initial_pipeline())
    } else {
        match run_spec(recs, n - 1) {
            Result::Err(e) => Result::Err(e),
            Result::Ok(s) => consume_spec(recs[n - 1], s),
        }
    }
}

/// A run that consumed its whole stream keeps the pipeline invariant.
pub proof fn lemma_run_wf(recs: Seq<RecordView>, n: int)
    requires
        run_spec(recs, n) is Ok,
    ensures
        pipeline_wf(run_spec(recs, n)->Ok_0),
    decreases n,
{
    if n <= 0 || n > recs.len() {
        crate::codegen::lemma_initial_pipeline_wf();
    } else {
        lemma_run_wf(recs, n - 1);
        lemma_consume_preserves_wf(recs[n - 1], run_spec(recs, n - 1)->Ok_0);
    }
}

/// Whether a directive appends to the pending-units queue.
pub open spec fn opens_unit_group(r: RecordView) -> bool {
    r is CustomUnit || r is StockUnit || r is CustomBuilder
}

/// How many pending-units openers stand after the last closing `UnitShop`
/// directive of the first `n` records.
pub open spec fn openers_since_close(recs: Seq<RecordView>, n: int) -> nat
    decreases n,
{
    if n <= 0 || n > recs.len() {
        0
    } else if recs[n - 1] is UnitShop {
        0
    } else if opens_unit_group(recs[n - 1]) {
        openers_since_close(recs, n - 1) + 1
    } else {
        openers_since_close(recs, n - 1)
    }
}

/// Queue semantics of the pending-units group: after any successful run,
/// the pending queue holds exactly one identifier per opening directive
/// (`CustomUnit`, `StockUnit`, `CustomBuilder`) since the last `UnitShop`,
/// and never more than the group capacity.
pub proof fn lemma_unit_queue_counts(recs: Seq<RecordView>, n: int)
    requires
        0 <= n <= recs.len(),
        run_spec(recs, n) is Ok,
    ensures
        run_spec(recs, n)->Ok_0.ctx.unit_queue.len() == openers_since_close(recs, n),
        openers_since_close(recs, n) <= crate::yarp_meta::GROUP_CAPACITY as int,
    decreases n,
{
    lemma_run_wf(recs, n);
    if n > 0 {
        lemma_unit_queue_counts(recs, n - 1);
    }
}

/// The number of sold entries of a shop closed at step `n` equals the
/// number of opening directives since the previous closing directive, and
/// never exceeds the group capacity.
pub proof fn lemma_shop_sold_counts(recs: Seq<RecordView>, n: int)
    requires
        0 <= n < recs.len(),
        recs[n] is UnitShop,
        run_spec(recs, n + 1) is Ok,
    ensures
        ({
            let t = run_spec(recs, n + 1)->Ok_0;
            &&& t.units.len() > 0
            &&& t.units.last().1 matches UnitView::Custom {
                variant: VariantView::Shop { sold, .. },
                ..
            }
            &&& t.units.last().1->Custom_variant->Shop_sold.len() == openers_since_close(recs, n)
            &&& openers_since_close(recs, n) <= crate::yarp_meta::GROUP_CAPACITY as int
        }),
{
    lemma_unit_queue_counts(recs, n);
    lemma_run_wf(recs, n);
    let s = run_spec(recs, n)->Ok_0;
    let kv = IdView::Uid {
        uid: recs[n]->UnitShop_uid,
        constant: crate::outside::shouty_snake_of(recs[n]->UnitShop_uid),
    };
    crate::yarp_meta::lemma_key_idx_v(s.units, kv);
    let i = crate::yarp_meta::key_idx_v(s.units, kv);
    if i >= 0 {
        assert(s.units[i].0 is Uid);
        assert(crate::yarp_meta::has_uid(s.symbolic, recs[n]->UnitShop_uid));
        assert(consume_spec(recs[n], s) is Err);
    }
    let t = run_spec(recs, n + 1)->Ok_0;
    assert(t.units == s.units.push(
        (
            kv,
            UnitView::Custom {
                id: kv,
                variant: VariantView::Shop { sold: s.ctx.unit_queue, scale: s.ctx.scale },
                name: recs[n]->UnitShop_name,
                model: crate::outside::trim_of(
                    match recs[n]->UnitShop_model {
                        Option::Some(m) => m,
                        Option::None => s.ctx.shop_model,
                    },
                ),
                icon: Seq::empty(),
            },
        ),
    ));
}

// ---------------------------------------------------------------------------
// Uniqueness of symbolic keys in the generated tables
// ---------------------------------------------------------------------------
/// Every symbolic key of a well-formed pipeline appears exactly once in the
/// emitted forward lookup table, exactly once in the reverse table, and is
/// carried by exactly one entity of the registry; the emitted constant list
/// holds one constant per custom entity.
pub proof fn lemma_symbolic_keys_once(s: PipelineView)
    requires
        pipeline_wf(s),
    ensures
        emit_spec(s).uid_registry_chunks.flatten() == s.symbolic,
        emit_spec(s).reverse_registry_chunks.flatten() == swapped(s.symbolic),
        forall|a: int, b: int|
            0 <= a < s.symbolic.len() && 0 <= b < s.symbolic.len() && (#[trigger] s.symbolic[a]).0
                == (#[trigger] s.symbolic[b]).0 ==> a == b,
        forall|a: int|
            0 <= a < s.symbolic.len() ==> units_has_key(
                s.units,
                IdView::Uid { uid: (#[trigger] s.symbolic[a]).0, constant: s.symbolic[a].1 },
            ),
        forall|j1: int, j2: int|
            0 <= j1 < s.units.len() && 0 <= j2 < s.units.len() && (#[trigger] s.units[j1]).0 == (
            #[trigger] s.units[j2]).0 ==> j1 == j2,
        emit_spec(s).constants.len() == unit_group(s.units).len() + shop_group(s.units).len()
            + building_group(s.units).len() + builder_group(s.units).len(),
        emit_spec(s).constants.len() == s.symbolic.len(),
{
    lemma_chunks_of(s.symbolic);
    lemma_chunks_of(swapped(s.symbolic));
    lemma_groups_partition(s.units);
}

/// The four emission groups partition the custom entities: together they
/// hold exactly one entry per custom entity.
pub proof fn lemma_groups_partition(units: Seq<(IdView, UnitView)>)
    ensures
        unit_group(units).len() + shop_group(units).len() + building_group(units).len()
            + builder_group(units).len() == custom_count(units),
    decreases units.len(),
{
    reveal(Seq::filter);
    if units.len() > 0 {
        lemma_groups_partition(units.drop_last());
    }
}

// ---------------------------------------------------------------------------
// The round trip through the interchange document
// ---------------------------------------------------------------------------
/// A registry the round trip can reproduce: serializable, with unique
/// entity keys, constant names derived from their keys, model paths already
/// trimmed, and empty shop icons.
pub open spec fn round_trip_src(units: Seq<(IdView, UnitView)>) -> bool {
    &&& crate::yarp_data::serializable(units)
    &&& forall|j1: int, j2: int|
        0 <= j1 < units.len() && 0 <= j2 < units.len() && (#[trigger] units[j1]).0 == (
        #[trigger] units[j2]).0 ==> j1 == j2
    &&& forall|i: int|
        0 <= i < units.len() ==> ((#[trigger] units[i]).0 is Uid ==> units[i].0->Uid_constant
            == crate::outside::shouty_snake_of(units[i].0->Uid_uid))
    &&& forall|i: int|
        0 <= i < units.len() ==> ((#[trigger] units[i]).1 is Custom ==> crate::outside::trim_of(
            units[i].1->Custom_model,
        ) == units[i].1->Custom_model)
    &&& forall|i: int|
        0 <= i < units.len() ==> (is_shop(#[trigger] units[i]) ==> units[i].1->Custom_icon
            == Seq::<char>::empty())
}

/// The reconstruction agrees with the source registry: every rebuilt entry
/// carries a source key and the source's entity for that key, and the
/// rebuilt symbolic table mirrors the rebuilt custom keys.
pub open spec fn rebuilt_good(
    units: Seq<(IdView, UnitView)>,
    st: crate::yarp_data::RegsView,
) -> bool {
    &&& forall|j: int|
        0 <= j < st.units.len() ==> crate::yarp_meta::key_idx_v(
            units,
            (#[trigger] st.units[j]).0,
        ) >= 0 && st.units[j].1 == units[crate::yarp_meta::key_idx_v(units, st.units[j].0)].1
    &&& forall|j: int|
        0 <= j < st.units.len() ==> ((#[trigger] st.units[j]).0 is Uid ==> exists|a: int|
            0 <= a < st.symbolic.len() && #[trigger] st.symbolic[a] == (
                st.units[j].0->Uid_uid,
                st.units[j].0->Uid_constant,
            ))
    &&& forall|a: int|
        0 <= a < st.symbolic.len() ==> units_has_key(
            st.units,
            IdView::Uid { uid: (#[trigger] st.symbolic[a]).0, constant: st.symbolic[a].1 },
        )
}

/// Whether a key-entity pair stands somewhere in a registry.
pub open spec fn entry_of(units: Seq<(IdView, UnitView)>, p: (IdView, UnitView)) -> bool {
    exists|i: int| 0 <= i < units.len() && #[trigger] units[i] == p
}

/// The document entries of a resolvable identifier list, pointwise.
proof fn lemma_docs_index(units: Seq<(IdView, UnitView)>, ids: Seq<IdView>, r: nat, n: int)
    requires
        0 <= n <= ids.len(),
        forall|k: int|
            0 <= k < ids.len() ==> crate::yarp_meta::key_idx_v(units, #[trigger] ids[k]) >= 0
                && crate::yarp_data::rank(
                units[crate::yarp_meta::key_idx_v(units, ids[k])].1,
            ) < r,
    ensures
        crate::yarp_data::docs_of_ids(units, ids.take(n), r).len() == n,
        forall|k: int|
            0 <= k < n ==> #[trigger] crate::yarp_data::docs_of_ids(units, ids.take(n), r)[k]
                == crate::yarp_data::doc_of_unit(
                units,
                units[crate::yarp_meta::key_idx_v(units, ids[k])].1,
            ),
    decreases n,
{
    if n > 0 {
        lemma_docs_index(units, ids, r, n - 1);
        assert(ids.take(n).drop_last() =~= ids.take(n - 1));
        assert(ids.take(n).last() == ids[n - 1]);
    }
}

/// Storing a source entity under its own key either leaves the rebuilt
/// registry unchanged (the key was already rebuilt, with the same entity)
/// or appends the entity; agreement and presence survive either way.
proof fn lemma_rt_upsert(units: Seq<(IdView, UnitView)>, idx: int, base: Seq<(IdView, UnitView)>)
    requires
        round_trip_src(units),
        0 <= idx < units.len(),
        forall|j: int|
            0 <= j < base.len() ==> crate::yarp_meta::key_idx_v(units, (#[trigger] base[j]).0)
                >= 0 && base[j].1 == units[crate::yarp_meta::key_idx_v(units, base[j].0)].1,
    ensures
        ({
            let up = crate::yarp_meta::upsert_v(base, units[idx].0, units[idx].1);
            &&& up == base || up == base.push((units[idx].0, units[idx].1))
            &&& forall|j: int|
                0 <= j < up.len() ==> crate::yarp_meta::key_idx_v(units, (#[trigger] up[j]).0)
                    >= 0 && up[j].1 == units[crate::yarp_meta::key_idx_v(units, up[j].0)].1
            &&& units_has_key(up, units[idx].0)
            &&& forall|k: IdView| units_has_key(base, k) ==> units_has_key(up, k)
        }),
{
    let kv = units[idx].0;
    let uv = units[idx].1;
    let up = crate::yarp_meta::upsert_v(base, kv, uv);
    crate::yarp_meta::lemma_key_idx_v(base, kv);
    crate::yarp_meta::lemma_key_idx_v(units, kv);
    let i = crate::yarp_meta::key_idx_v(base, kv);
    assert(crate::yarp_meta::key_idx_v(units, kv) == idx) by {
        let w = crate::yarp_meta::key_idx_v(units, kv);
        assert(w >= 0);
        assert(units[w].0 == units[idx].0);
    }
    if i >= 0 {
        assert(base[i].0 == kv);
        assert(base[i].1 == uv);
        assert(up =~= base);
        assert(units_has_key(up, kv)) by {
            assert(up[i].0 == kv);
        }
    } else {
        assert(up == base.push((kv, uv)));
        assert forall|j: int|
            0 <= j < up.len() implies crate::yarp_meta::key_idx_v(units, (#[trigger] up[j]).0)
            >= 0 && up[j].1 == units[crate::yarp_meta::key_idx_v(units, up[j].0)].1 by {
            if j < base.len() {
                assert(up[j] == base[j]);
            } else {
                assert(up[j] == (kv, uv));
            }
        }
        assert(units_has_key(up, kv)) by {
            assert(up[base.len() as int].0 == kv);
        }
        assert forall|k: IdView| units_has_key(base, k) implies units_has_key(up, k) by {
            let j = choose|j: int| 0 <= j < base.len() && (#[trigger] base[j]).0 == k;
            assert(up[j].0 == k);
        }
    }
}

/// Rebuilding the document entry of one source entity returns the entity's
/// own identifier, keeps the reconstruction in agreement with the source,
/// leaves the model table alone, preserves every key already rebuilt, and
/// makes the entity (and, for a builder, everything it builds) present.
proof fn lemma_rt_unit(units: Seq<(IdView, UnitView)>, idx: int, st: crate::yarp_data::RegsView)
    requires
        round_trip_src(units),
        0 <= idx < units.len(),
        crate::yarp_data::rank(units[idx].1) <= 1,
        rebuilt_good(units, st),
        crate::yarp_data::xform_unit(
            crate::yarp_data::doc_of_unit(units, units[idx].1),
            st,
        ) is Ok,
    ensures
        ({
            let (st2, id) = crate::yarp_data::xform_unit(
                crate::yarp_data::doc_of_unit(units, units[idx].1),
                st,
            )->Ok_0;
            &&& id == units[idx].0
            &&& rebuilt_good(units, st2)
            &&& st2.models == st.models
            &&& units_has_key(st2.units, units[idx].0)
            &&& forall|k: IdView| units_has_key(st.units, k) ==> units_has_key(st2.units, k)
            &&& (units[idx].1 matches UnitView::Custom {
                variant: VariantView::Builder { built },
                ..
            } ==> forall|b: int|
                0 <= b < built.len() ==> units_has_key(st2.units, #[trigger] built[b]))
        }),
    decreases crate::yarp_data::rank(units[idx].1), 1int, 0int,
{
    let u = units[idx].1;
    let doc = crate::yarp_data::doc_of_unit(units, u);
    assert(crate::yarp_meta::unit_id_view(u) == units[idx].0);
    match u {
        UnitView::Stock { id, model } => {
            assert(id is Raw);
            assert(id == (IdView::Raw { rawid: id->Raw_rawid }));
            let uv = UnitView::Stock { id, model };
            assert(uv == u);
            lemma_rt_upsert(units, idx, st.units);
            let st2 = crate::yarp_data::xform_unit(doc, st)->Ok_0.0;
            assert(st2.symbolic == st.symbolic);
            assert(st2.units == crate::yarp_meta::upsert_v(st.units, id, uv));
            assert(rebuilt_good(units, st2)) by {
                lemma_rt_good_after_units_change(units, st, st2);
            }
        },
        UnitView::Custom { id, variant, name, model, icon } => {
            assert(id is Uid);
            let uid = id->Uid_uid;
            assert(id == (IdView::Uid { uid, constant: crate::outside::shouty_snake_of(uid) }));
            let trimmed = crate::outside::trim_of(model);
            assert(trimmed == model);
            match variant {
                VariantView::Builder { built } => {
                    assert(crate::yarp_data::resolvable(units, built, 0));
                    assert(crate::yarp_data::rank(u) == 1);
                    assert forall|k: int|
                        0 <= k < built.len() implies crate::yarp_meta::key_idx_v(
                        units,
                        #[trigger] built[k],
                    ) >= 0 && crate::yarp_data::rank(
                        units[crate::yarp_meta::key_idx_v(units, built[k])].1,
                    ) < 1 by {}
                    let docs = crate::yarp_data::docs_of_ids(units, built, 1nat);
                    lemma_docs_index(units, built, 1nat, built.len() as int);
                    assert(built.take(built.len() as int) =~= built);
                    assert(docs.len() == built.len());
                    assert(doc->Custom_variant->Builder_built == docs);
                    let step = crate::yarp_data::xform_children(docs, docs.len() as int, st);
                    assert(step is Ok) by {
                        if step is Err {
                            assert(crate::yarp_data::xform_unit(doc, st) is Err);
                        }
                    }
                    lemma_rt_children(units, built, 1nat, built.len() as int, st);
                    let st1 = step->Ok_0.0;
                    let child_ids = step->Ok_0.1;
                    assert(child_ids == built);
                    assert(crate::yarp_data::alloc_sym(st1, uid) is Ok) by {
                        if crate::yarp_data::alloc_sym(st1, uid) is Err {
                            assert(crate::yarp_data::xform_unit(doc, st) is Err);
                        }
                    }
                    lemma_rt_alloc_and_store(units, idx, st, st1, u);
                    let st2 = crate::yarp_data::alloc_sym(st1, uid)->Ok_0.0;
                    let kv = crate::yarp_data::alloc_sym(st1, uid)->Ok_0.1;
                    let uv_x = UnitView::Custom {
                        id: kv,
                        variant: VariantView::Builder { built: child_ids },
                        name,
                        model: crate::outside::trim_of(model),
                        icon,
                    };
                    assert(uv_x =~~= u);
                    let fin = crate::yarp_data::RegsView {
                        units: crate::yarp_meta::upsert_v(st2.units, kv, u),
                        ..st2
                    };
                    assert(crate::yarp_data::xform_unit(doc, st)->Ok_0 == (fin, kv));
                    assert forall|b: int|
                        0 <= b < built.len() implies units_has_key(
                        fin.units,
                        #[trigger] built[b],
                    ) by {
                        assert(units_has_key(st1.units, built[b]));
                    }
                },
                VariantView::Unit => {
                    assert(crate::yarp_data::alloc_sym(st, uid) is Ok) by {
                        if crate::yarp_data::alloc_sym(st, uid) is Err {
                            assert(crate::yarp_data::xform_unit(doc, st) is Err);
                        }
                    }
                    lemma_rt_alloc_and_store(units, idx, st, st, u);
                    let st2 = crate::yarp_data::alloc_sym(st, uid)->Ok_0.0;
                    let kv = crate::yarp_data::alloc_sym(st, uid)->Ok_0.1;
                    let uv_x = UnitView::Custom {
                        id: kv,
                        variant: VariantView::Unit,
                        name,
                        model: crate::outside::trim_of(model),
                        icon,
                    };
                    assert(uv_x =~~= u);
                    let fin = crate::yarp_data::RegsView {
                        units: crate::yarp_meta::upsert_v(st2.units, kv, u),
                        ..st2
                    };
                    assert(crate::yarp_data::xform_unit(doc, st)->Ok_0 == (fin, kv));
                },
                VariantView::Building => {
                    assert(crate::yarp_data::alloc_sym(st, uid) is Ok) by {
                        if crate::yarp_data::alloc_sym(st, uid) is Err {
                            assert(crate::yarp_data::xform_unit(doc, st) is Err);
                        }
                    }
                    lemma_rt_alloc_and_store(units, idx, st, st, u);
                    let st2 = crate::yarp_data::alloc_sym(st, uid)->Ok_0.0;
                    let kv = crate::yarp_data::alloc_sym(st, uid)->Ok_0.1;
                    let uv_x = UnitView::Custom {
                        id: kv,
                        variant: VariantView::Building,
                        name,
                        model: crate::outside::trim_of(model),
                        icon,
                    };
                    assert(uv_x =~~= u);
                    let fin = crate::yarp_data::RegsView {
                        units: crate::yarp_meta::upsert_v(st2.units, kv, u),
                        ..st2
                    };
                    assert(crate::yarp_data::xform_unit(doc, st)->Ok_0 == (fin, kv));
                },
                VariantView::Shop { .. } => {
                    assert(false);
                },
            }
        },
    }
}

/// After a custom entity's children are rebuilt, allocating its key and
/// storing the entity preserves every guarantee.
proof fn lemma_rt_alloc_and_store(
    units: Seq<(IdView, UnitView)>,
    idx: int,
    st: crate::yarp_data::RegsView,
    st1: crate::yarp_data::RegsView,
    u: UnitView,
)
    requires
        round_trip_src(units),
        0 <= idx < units.len(),
        units[idx].1 == u,
        u is Custom,
        rebuilt_good(units, st1),
        st1.models == st.models,
        crate::yarp_data::alloc_sym(st1, u->Custom_id->Uid_uid) is Ok,
    ensures
        ({
            let st2 = crate::yarp_data::alloc_sym(st1, u->Custom_id->Uid_uid)->Ok_0.0;
            let kv = crate::yarp_data::alloc_sym(st1, u->Custom_id->Uid_uid)->Ok_0.1;
            let fin = crate::yarp_data::RegsView {
                units: crate::yarp_meta::upsert_v(st2.units, kv, u),
                ..st2
            };
            &&& kv == units[idx].0
            &&& rebuilt_good(units, fin)
            &&& fin.models == st.models
            &&& units_has_key(fin.units, units[idx].0)
            &&& forall|k: IdView| units_has_key(st1.units, k) ==> units_has_key(fin.units, k)
        }),
{
    let uid = u->Custom_id->Uid_uid;
    assert(crate::yarp_meta::unit_id_view(u) == units[idx].0);
    assert(units[idx].0 is Uid);
    assert(units[idx].0->Uid_constant == crate::outside::shouty_snake_of(
        units[idx].0->Uid_uid,
    ));
    let st2 = crate::yarp_data::alloc_sym(st1, uid)->Ok_0.0;
    let kv = crate::yarp_data::alloc_sym(st1, uid)->Ok_0.1;
    assert(kv == units[idx].0);
    assert(st2.units == st1.units);
    assert(st2.symbolic == st1.symbolic.push((uid, crate::outside::shouty_snake_of(uid))));
    lemma_rt_upsert(units, idx, st2.units);
    let fin = crate::yarp_data::RegsView {
        units: crate::yarp_meta::upsert_v(st2.units, kv, u),
        ..st2
    };
    assert forall|j: int|
        0 <= j < fin.units.len() implies ((#[trigger] fin.units[j]).0 is Uid ==> exists|a: int|
            0 <= a < fin.symbolic.len() && #[trigger] fin.symbolic[a] == (
                fin.units[j].0->Uid_uid,
                fin.units[j].0->Uid_constant,
            )) by {
        if fin.units[j].0 is Uid {
            if j < st1.units.len() && fin.units == st1.units.push((kv, u)) {
                assert(fin.units[j] == st1.units[j]);
                let a = choose|a: int|
                    0 <= a < st1.symbolic.len() && #[trigger] st1.symbolic[a] == (
                        st1.units[j].0->Uid_uid,
                        st1.units[j].0->Uid_constant,
                    );
                assert(fin.symbolic[a] == st1.symbolic[a]);
            } else if fin.units == st1.units {
                let a = choose|a: int|
                    0 <= a < st1.symbolic.len() && #[trigger] st1.symbolic[a] == (
                        st1.units[j].0->Uid_uid,
                        st1.units[j].0->Uid_constant,
                    );
                assert(fin.symbolic[a] == st1.symbolic[a]);
            } else {
                assert(fin.units[j] == (kv, u));
                assert(fin.symbolic[st1.symbolic.len() as int] == (
                    uid,
                    crate::outside::shouty_snake_of(uid),
                ));
            }
        }
    }
    assert forall|a: int|
        0 <= a < fin.symbolic.len() implies units_has_key(
        fin.units,
        IdView::Uid { uid: (#[trigger] fin.symbolic[a]).0, constant: fin.symbolic[a].1 },
    ) by {
        if a < st1.symbolic.len() {
            assert(fin.symbolic[a] == st1.symbolic[a]);
            assert(units_has_key(
                st1.units,
                IdView::Uid { uid: st1.symbolic[a].0, constant: st1.symbolic[a].1 },
            ));
            let j = choose|j: int|
                0 <= j < st1.units.len() && (#[trigger] st1.units[j]).0 == (IdView::Uid {
                    uid: st1.symbolic[a].0,
                    constant: st1.symbolic[a].1,
                });
            assert(fin.units[j].0 == st1.units[j].0 || fin.units == st1.units);
            assert(units_has_key(fin.units, st1.units[j].0)) by {
                if fin.units == st1.units.push((kv, u)) {
                    assert(fin.units[j].0 == st1.units[j].0);
                }
            }
        } else {
            assert(fin.symbolic[a] == (uid, crate::outside::shouty_snake_of(uid)));
            assert(units_has_key(fin.units, kv));
        }
    }
}

/// Goodness survives a change that touches only the rebuilt entity list,
/// provided agreement and presence were re-established for it.
proof fn lemma_rt_good_after_units_change(
    units: Seq<(IdView, UnitView)>,
    st: crate::yarp_data::RegsView,
    st2: crate::yarp_data::RegsView,
)
    requires
        rebuilt_good(units, st),
        st2.symbolic == st.symbolic,
        st2.units == st.units || st2.units == st.units.push(
            (st2.units.last().0, st2.units.last().1),
        ),
        forall|j: int|
            0 <= j < st2.units.len() ==> crate::yarp_meta::key_idx_v(
                units,
                (#[trigger] st2.units[j]).0,
            ) >= 0 && st2.units[j].1 == units[crate::yarp_meta::key_idx_v(units, st2.units[j].0)].1,
        st2.units.len() > 0 && st2.units != st.units ==> !(st2.units.last().0 is Uid),
    ensures
        rebuilt_good(units, st2),
{
    assert forall|j: int|
        0 <= j < st2.units.len() implies ((#[trigger] st2.units[j]).0 is Uid ==> exists|a: int|
            0 <= a < st2.symbolic.len() && #[trigger] st2.symbolic[a] == (
                st2.units[j].0->Uid_uid,
                st2.units[j].0->Uid_constant,
            )) by {
        if st2.units[j].0 is Uid {
            assert(j < st.units.len());
            assert(st2.units[j] == st.units[j]);
            let a = choose|a: int|
                0 <= a < st.symbolic.len() && #[trigger] st.symbolic[a] == (
                    st.units[j].0->Uid_uid,
                    st.units[j].0->Uid_constant,
                );
            assert(st2.symbolic[a] == st.symbolic[a]);
        }
    }
    assert forall|a: int|
        0 <= a < st2.symbolic.len() implies units_has_key(
        st2.units,
        IdView::Uid { uid: (#[trigger] st2.symbolic[a]).0, constant: st2.symbolic[a].1 },
    ) by {
        assert(st2.symbolic[a] == st.symbolic[a]);
        let j = choose|j: int|
            0 <= j < st.units.len() && (#[trigger] st.units[j]).0 == (IdView::Uid {
                uid: st.symbolic[a].0,
                constant: st.symbolic[a].1,
            });
        assert(st2.units[j].0 == st.units[j].0);
    }
}

/// Rebuilding the document entries of a resolvable identifier list returns
/// exactly those identifiers, in order, with the same guarantees as for one
/// entity.
proof fn lemma_rt_children(
    units: Seq<(IdView, UnitView)>,
    ids: Seq<IdView>,
    r: nat,
    n: int,
    st: crate::yarp_data::RegsView,
)
    requires
        round_trip_src(units),
        r <= 2,
        0 <= n <= ids.len(),
        forall|k: int|
            0 <= k < ids.len() ==> crate::yarp_meta::key_idx_v(units, #[trigger] ids[k]) >= 0
                && crate::yarp_data::rank(
                units[crate::yarp_meta::key_idx_v(units, ids[k])].1,
            ) < r,
        rebuilt_good(units, st),
        crate::yarp_data::xform_children(
            crate::yarp_data::docs_of_ids(units, ids, r),
            n,
            st,
        ) is Ok,
    ensures
        ({
            let (st2, out) = crate::yarp_data::xform_children(
                crate::yarp_data::docs_of_ids(units, ids, r),
                n,
                st,
            )->Ok_0;
            &&& out == ids.take(n)
            &&& rebuilt_good(units, st2)
            &&& st2.models == st.models
            &&& forall|k: IdView| units_has_key(st.units, k) ==> units_has_key(st2.units, k)
            &&& forall|k: int| 0 <= k < n ==> units_has_key(st2.units, #[trigger] ids[k])
            &&& forall|k: int|
                #![trigger ids[k]]
                0 <= k < n ==> (units[crate::yarp_meta::key_idx_v(units, ids[k])].1 matches
                UnitView::Custom { variant: VariantView::Builder { built }, .. } ==> forall|b: int|
                    0 <= b < built.len() ==> units_has_key(st2.units, #[trigger] built[b]))
        }),
    decreases r, 0int, n,
{
    let l = crate::yarp_data::docs_of_ids(units, ids, r);
    lemma_docs_index(units, ids, r, ids.len() as int);
    assert(ids.take(ids.len() as int) =~= ids);
    if n <= 0 {
        assert(ids.take(0) =~= Seq::<IdView>::empty());
    } else {
        assert(crate::yarp_data::xform_children(l, n - 1, st) is Ok);
        lemma_rt_children(units, ids, r, n - 1, st);
        let step = crate::yarp_data::xform_children(l, n - 1, st);
        let st1 = step->Ok_0.0;
        let prefix = step->Ok_0.1;
        let j = crate::yarp_meta::key_idx_v(units, ids[n - 1]);
        assert(l[n - 1] == crate::yarp_data::doc_of_unit(units, units[j].1));
        crate::yarp_meta::lemma_key_idx_v(units, ids[n - 1]);
        assert(units[j].0 == ids[n - 1]);
        assert(crate::yarp_data::xform_unit(l[n - 1], st1) is Ok);
        lemma_rt_unit(units, j, st1);
        let (st2, id) = crate::yarp_data::xform_unit(l[n - 1], st1)->Ok_0;
        assert(id == ids[n - 1]);
        assert(prefix.push(id) =~= ids.take(n));
        assert forall|k: int| 0 <= k < n implies units_has_key(st2.units, #[trigger] ids[k]) by {
            if k < n - 1 {
                assert(units_has_key(st1.units, ids[k]));
            }
        }
        assert forall|k: int|
            #![trigger ids[k]]
            0 <= k < n implies (units[crate::yarp_meta::key_idx_v(units, ids[k])].1 matches
            UnitView::Custom { variant: VariantView::Builder { built }, .. } ==> forall|b: int|
                0 <= b < built.len() ==> units_has_key(st2.units, #[trigger] built[b])) by {
            if k < n - 1 {
                match units[crate::yarp_meta::key_idx_v(units, ids[k])].1 {
                    UnitView::Custom { variant: VariantView::Builder { built }, .. } => {
                        assert forall|b: int|
                            0 <= b < built.len() implies units_has_key(
                            st2.units,
                            #[trigger] built[b],
                        ) by {
                            assert(units_has_key(st1.units, built[b]));
                        }
                    },
                    _ => {},
                }
            }
        }
    }
}

/// Every element of a filtered sequence is an element of the original.
proof fn lemma_filter_subset<T>(s: Seq<T>, pred: spec_fn(T) -> bool)
    ensures
        forall|m: int|
            0 <= m < s.filter(pred).len() ==> exists|i: int|
                0 <= i < s.len() && s[i] == #[trigger] s.filter(pred)[m],
    decreases s.len(),
{
    reveal(Seq::filter);
    if s.len() > 0 {
        lemma_filter_subset(s.drop_last(), pred);
        assert forall|m: int|
            0 <= m < s.filter(pred).len() implies exists|i: int|
                0 <= i < s.len() && s[i] == #[trigger] s.filter(pred)[m] by {
            let f = s.filter(pred);
            let fd = s.drop_last().filter(pred);
            if m < fd.len() {
                assert(f[m] == fd[m]);
                let i = choose|i: int|
                    0 <= i < s.drop_last().len() && s.drop_last()[i] == fd[m];
                assert(s[i] == f[m]);
            } else {
                assert(f[m] == s.last());
                assert(s[s.len() - 1] == f[m]);
            }
        }
    }
}

/// What rebuilding one shop guarantees: itself, its sold entries, and its
/// sold builders' built entries are all present afterwards.
proof fn lemma_rt_shop(units: Seq<(IdView, UnitView)>, idx: int, st: crate::yarp_data::RegsView)
    requires
        round_trip_src(units),
        0 <= idx < units.len(),
        is_shop(units[idx]),
        rebuilt_good(units, st),
        crate::yarp_data::xform_shop(
            crate::yarp_data::doc_of_shop(units, units[idx]),
            st,
        ) is Ok,
    ensures
        ({
            let st2 = crate::yarp_data::xform_shop(
                crate::yarp_data::doc_of_shop(units, units[idx]),
                st,
            )->Ok_0;
            let sold = units[idx].1->Custom_variant->Shop_sold;
            &&& rebuilt_good(units, st2)
            &&& st2.models == st.models
            &&& forall|k: IdView| units_has_key(st.units, k) ==> units_has_key(st2.units, k)
            &&& units_has_key(st2.units, units[idx].0)
            &&& forall|k: int| 0 <= k < sold.len() ==> units_has_key(st2.units, #[trigger] sold[k])
            &&& forall|k: int|
                #![trigger sold[k]]
                0 <= k < sold.len() ==> (units[crate::yarp_meta::key_idx_v(units, sold[k])].1
                    matches UnitView::Custom { variant: VariantView::Builder { built }, .. }
                    ==> forall|b: int|
                    0 <= b < built.len() ==> units_has_key(st2.units, #[trigger] built[b]))
        }),
{
    let u = units[idx].1;
    let doc = crate::yarp_data::doc_of_shop(units, units[idx]);
    assert(crate::yarp_meta::unit_id_view(u) == units[idx].0);
    match u {
        UnitView::Custom { id, variant: VariantView::Shop { sold, scale }, name, model, icon } => {
            assert(id is Uid);
            let uid = id->Uid_uid;
            assert(crate::yarp_data::resolvable(units, sold, 1));
            assert forall|k: int|
                0 <= k < sold.len() implies crate::yarp_meta::key_idx_v(
                units,
                #[trigger] sold[k],
            ) >= 0 && crate::yarp_data::rank(
                units[crate::yarp_meta::key_idx_v(units, sold[k])].1,
            ) < 2 by {}
            let docs = crate::yarp_data::docs_of_ids(units, sold, 2nat);
            lemma_docs_index(units, sold, 2nat, sold.len() as int);
            assert(sold.take(sold.len() as int) =~= sold);
            assert(docs.len() == sold.len());
            assert(doc.sold == docs);
            let step = crate::yarp_data::xform_children(docs, docs.len() as int, st);
            assert(step is Ok) by {
                if step is Err {
                    assert(crate::yarp_data::xform_shop(doc, st) is Err);
                }
            }
            lemma_rt_children(units, sold, 2nat, sold.len() as int, st);
            let st1 = step->Ok_0.0;
            let out = step->Ok_0.1;
            assert(out == sold);
            assert(crate::yarp_data::alloc_sym(st1, doc.uid) is Ok) by {
                if crate::yarp_data::alloc_sym(st1, doc.uid) is Err {
                    assert(crate::yarp_data::xform_shop(doc, st) is Err);
                }
            }
            assert(doc.uid == uid);
            lemma_rt_alloc_and_store(units, idx, st, st1, u);
            let st2a = crate::yarp_data::alloc_sym(st1, uid)->Ok_0.0;
            let kv = crate::yarp_data::alloc_sym(st1, uid)->Ok_0.1;
            let uv_x = UnitView::Custom {
                id: kv,
                variant: VariantView::Shop { sold: out, scale: doc.scale },
                name: doc.name,
                model: crate::outside::trim_of(doc.model),
                icon: Seq::empty(),
            };
            assert(icon == Seq::<char>::empty());
            assert(uv_x =~~= u);
            let fin = crate::yarp_data::RegsView {
                units: crate::yarp_meta::upsert_v(st2a.units, kv, u),
                ..st2a
            };
            assert(crate::yarp_data::xform_shop(doc, st)->Ok_0 == fin);
            assert forall|k: int|
                0 <= k < sold.len() implies units_has_key(fin.units, #[trigger] sold[k]) by {
                assert(units_has_key(st1.units, sold[k]));
            }
            assert forall|k: int|
                #![trigger sold[k]]
                0 <= k < sold.len() implies (units[crate::yarp_meta::key_idx_v(
                units,
                sold[k],
            )].1 matches UnitView::Custom { variant: VariantView::Builder { built }, .. }
                ==> forall|b: int|
                0 <= b < built.len() ==> units_has_key(fin.units, #[trigger] built[b])) by {
                match units[crate::yarp_meta::key_idx_v(units, sold[k])].1 {
                    UnitView::Custom { variant: VariantView::Builder { built }, .. } => {
                        assert forall|b: int|
                            0 <= b < built.len() implies units_has_key(
                            fin.units,
                            #[trigger] built[b],
                        ) by {
                            assert(units_has_key(st1.units, built[b]));
                        }
                    },
                    _ => {},
                }
            }
        },
        _ => {
            assert(false);
        },
    }
}

/// The documents of the shop group, in emission order.
pub open spec fn shop_docs(units: Seq<(IdView, UnitView)>) -> Seq<crate::yarp_data::DataShopView> {
    shop_group(units).map_values(
        |p: (IdView, UnitView)| crate::yarp_data::doc_of_shop(units, p),
    )
}

/// Rebuilding the first `n` shop documents keeps the reconstruction in
/// agreement and makes every rebuilt shop's closure present.
proof fn lemma_rt_shops(units: Seq<(IdView, UnitView)>, n: int, st0: crate::yarp_data::RegsView)
    requires
        round_trip_src(units),
        0 <= n <= shop_group(units).len(),
        rebuilt_good(units, st0),
        crate::yarp_data::xform_shops(shop_docs(units), n, st0) is Ok,
    ensures
        ({
            let st = crate::yarp_data::xform_shops(shop_docs(units), n, st0)->Ok_0;
            &&& rebuilt_good(units, st)
            &&& st.models == st0.models
            &&& forall|k: IdView| units_has_key(st0.units, k) ==> units_has_key(st.units, k)
            &&& forall|m: int|
                0 <= m < n ==> units_has_key(st.units, (#[trigger] shop_group(units)[m]).0)
            &&& forall|m: int, k: int|
                #![trigger shop_group(units)[m].1->Custom_variant->Shop_sold[k]]
                0 <= m < n && 0 <= k < shop_group(units)[m].1->Custom_variant->Shop_sold.len()
                    ==> units_has_key(
                    st.units,
                    shop_group(units)[m].1->Custom_variant->Shop_sold[k],
                ) && (units[crate::yarp_meta::key_idx_v(
                    units,
                    shop_group(units)[m].1->Custom_variant->Shop_sold[k],
                )].1 matches UnitView::Custom { variant: VariantView::Builder { built }, .. }
                    ==> forall|b: int|
                    0 <= b < built.len() ==> units_has_key(st.units, #[trigger] built[b]))
        }),
    decreases n,
{
    let sg = shop_group(units);
    let docs = shop_docs(units);
    if n > 0 {
        assert(crate::yarp_data::xform_shops(docs, n - 1, st0) is Ok) by {
            if crate::yarp_data::xform_shops(docs, n - 1, st0) is Err {
                assert(crate::yarp_data::xform_shops(docs, n, st0) is Err);
            }
        }
        lemma_rt_shops(units, n - 1, st0);
        let st1 = crate::yarp_data::xform_shops(docs, n - 1, st0)->Ok_0;
        lemma_filter_subset(units, |p: (IdView, UnitView)| is_shop(p));
        let i = choose|i: int| 0 <= i < units.len() && units[i] == sg[n - 1];
        assert(docs[n - 1] == crate::yarp_data::doc_of_shop(units, sg[n - 1]));
        assert(crate::yarp_data::doc_of_shop(units, sg[n - 1]) == crate::yarp_data::doc_of_shop(
            units,
            units[i],
        ));
        assert(is_shop(units[i])) by {
            crate::yarp_meta::lemma_key_idx_v(units, units[i].0);
            units.filter_lemma(|p: (IdView, UnitView)| is_shop(p));
        }
        assert(crate::yarp_data::xform_shop(docs[n - 1], st1) is Ok);
        lemma_rt_shop(units, i, st1);
        let st = crate::yarp_data::xform_shop(docs[n - 1], st1)->Ok_0;
        assert forall|m: int|
            0 <= m < n implies units_has_key(st.units, (#[trigger] sg[m]).0) by {
            if m < n - 1 {
                assert(units_has_key(st1.units, sg[m].0));
            } else {
                assert(sg[m].0 == units[i].0);
            }
        }
        assert forall|m: int, k: int|
            #![trigger sg[m].1->Custom_variant->Shop_sold[k]]
            0 <= m < n && 0 <= k < sg[m].1->Custom_variant->Shop_sold.len() implies units_has_key(
            st.units,
            sg[m].1->Custom_variant->Shop_sold[k],
        ) && (units[crate::yarp_meta::key_idx_v(
            units,
            sg[m].1->Custom_variant->Shop_sold[k],
        )].1 matches UnitView::Custom { variant: VariantView::Builder { built }, .. } ==> forall|
            b: int,
        |
            0 <= b < built.len() ==> units_has_key(st.units, #[trigger] built[b])) by {
            if m < n - 1 {
                assert(units_has_key(st1.units, sg[m].1->Custom_variant->Shop_sold[k]));
                match units[crate::yarp_meta::key_idx_v(
                    units,
                    sg[m].1->Custom_variant->Shop_sold[k],
                )].1 {
                    UnitView::Custom { variant: VariantView::Builder { built }, .. } => {
                        assert forall|b: int|
                            0 <= b < built.len() implies units_has_key(
                            st.units,
                            #[trigger] built[b],
                        ) by {
                            assert(units_has_key(st1.units, built[b]));
                        }
                    },
                    _ => {},
                }
            } else {
                assert(sg[m].1 == units[i].1);
            }
        }
    }
}

/// Every entity of the registry is reachable from the serialized document:
/// it is a shop, or some shop sells it, or some builder builds it.
pub open spec fn covered(units: Seq<(IdView, UnitView)>) -> bool {
    forall|i: int|
        0 <= i < units.len() ==> is_shop(#[trigger] units[i]) || exists|j: int|
            0 <= j < units.len() && match (#[trigger] units[j]).1 {
                UnitView::Custom { variant: VariantView::Shop { sold, .. }, .. } => sold.contains(
                    units[i].0,
                ),
                UnitView::Custom { variant: VariantView::Builder { built }, .. } => built.contains(
                    units[i].0,
                ),
                _ => false,
            }
}

/// A filtered key table keeps its keys pairwise distinct.
proof fn lemma_filter_keys_distinct<V>(
    s: Seq<(IdView, V)>,
    pred: spec_fn((IdView, V)) -> bool,
)
    requires
        forall|a: int, b: int| 0 <= a < b < s.len() ==> (#[trigger] s[a]).0 != (#[trigger] s[b]).0,
    ensures
        forall|a: int, b: int|
            0 <= a < b < s.filter(pred).len() ==> (#[trigger] s.filter(pred)[a]).0 != (
            #[trigger] s.filter(pred)[b]).0,
    decreases s.len(),
{
    reveal(Seq::filter);
    if s.len() > 0 {
        assert forall|a: int, b: int|
            0 <= a < b < s.drop_last().len() implies (#[trigger] s.drop_last()[a]).0 != (
            #[trigger] s.drop_last()[b]).0 by {
            assert(s.drop_last()[a] == s[a]);
            assert(s.drop_last()[b] == s[b]);
        }
        lemma_filter_keys_distinct(s.drop_last(), pred);
        lemma_filter_subset(s.drop_last(), pred);
        let f = s.filter(pred);
        let fd = s.drop_last().filter(pred);
        assert forall|a: int, b: int|
            0 <= a < b < f.len() implies (#[trigger] f[a]).0 != (#[trigger] f[b]).0 by {
            if b < fd.len() {
                assert(f[a] == fd[a]);
                assert(f[b] == fd[b]);
            } else if pred(s.last()) && b == f.len() - 1 && f.len() == fd.len() + 1 {
                assert(f[a] == fd[a]);
                assert(f[b] == s.last());
                let i = choose|i: int|
                    0 <= i < s.drop_last().len() && s.drop_last()[i] == fd[a];
                assert(s[i] == fd[a]);
                assert(s[s.len() - 1] == s.last());
            }
        }
    }
}

/// Replaying a side table with pairwise distinct raw keys appends its
/// bindings in order and touches nothing else.
proof fn lemma_rt_replay(
    models: Seq<(IdView, Seq<char>)>,
    n: int,
    st: crate::yarp_data::RegsView,
)
    requires
        forall|a: int, b: int|
            0 <= a < b < models.len() ==> (#[trigger] models[a]).0 != (#[trigger] models[b]).0,
        st.models == Seq::<(IdView, Seq<char>)>::empty(),
        0 <= n <= models.filter(|p: (IdView, Seq<char>)| p.0 is Raw).len(),
    ensures
        ({
            let side = serialize_side(models);
            let f = models.filter(|p: (IdView, Seq<char>)| p.0 is Raw);
            let st2 = crate::yarp_data::replay_models(side, n, st);
            &&& st2.units == st.units
            &&& st2.symbolic == st.symbolic
            &&& st2.models == f.take(n)
        }),
    decreases n,
{
    let f = models.filter(|p: (IdView, Seq<char>)| p.0 is Raw);
    let side = serialize_side(models);
    models.filter_lemma(|p: (IdView, Seq<char>)| p.0 is Raw);
    lemma_filter_keys_distinct(models, |p: (IdView, Seq<char>)| p.0 is Raw);
    if n <= 0 {
        assert(f.take(0) =~= Seq::<(IdView, Seq<char>)>::empty());
    } else {
        lemma_rt_replay(models, n - 1, st);
        let st1 = crate::yarp_data::replay_models(side, n - 1, st);
        assert(side[n - 1] == (f[n - 1].0->Raw_rawid, f[n - 1].1));
        assert(f[n - 1].0 is Raw);
        assert((IdView::Raw { rawid: f[n - 1].0->Raw_rawid }) == f[n - 1].0);
        crate::yarp_meta::lemma_key_idx_v(st1.models, f[n - 1].0);
        let i = crate::yarp_meta::key_idx_v(st1.models, f[n - 1].0);
        assert(i < 0) by {
            if i >= 0 {
                assert(st1.models[i].0 == f[n - 1].0);
                assert(f.take(n - 1)[i] == f[i]);
            }
        }
        assert(st1.models.push(f[n - 1]) =~= f.take(n));
        assert(crate::yarp_meta::upsert_v(st1.models, f[n - 1].0, f[n - 1].1) =~= f.take(n));
    }
}

/// The serialized side table of a model registry.
pub open spec fn serialize_side(models: Seq<(IdView, Seq<char>)>) -> Seq<(Seq<char>, Seq<char>)> {
    models.filter(|p: (IdView, Seq<char>)| p.0 is Raw).map_values(
        |p: (IdView, Seq<char>)| (p.0->Raw_rawid, p.1),
    )
}

/// The round trip through the interchange document: if deserializing the
/// serialized registries succeeds, it reconstructs the same entity and
/// identifier sets — every rebuilt entry is an entry of the source, every
/// source entry is rebuilt, the symbolic keys match in both directions, and
/// the model registry's raw bindings are replayed exactly, in order.
/// `lemma_round_trip_complete` discharges the success hypothesis for
/// registries whose entities are each referenced at most once.  A source
/// registry whose pending groups were never closed by a `UnitShop`
/// directive is not `covered` and is excluded, because serialization walks
/// only completed shops.
pub proof fn lemma_round_trip(units: Seq<(IdView, UnitView)>, models: Seq<(IdView, Seq<char>)>)
    requires
        round_trip_src(units),
        covered(units),
        forall|a: int, b: int|
            0 <= a < b < models.len() ==> (#[trigger] models[a]).0 != (#[trigger] models[b]).0,
        crate::yarp_data::deserialize_spec(
            crate::yarp_data::serialize_spec(units, models),
        ) is Ok,
    ensures
        ({
            let st = crate::yarp_data::deserialize_spec(
                crate::yarp_data::serialize_spec(units, models),
            )->Ok_0;
            &&& forall|j: int|
                0 <= j < st.units.len() ==> #[trigger] entry_of(units, st.units[j])
            &&& forall|i: int|
                0 <= i < units.len() ==> #[trigger] entry_of(st.units, units[i])
            &&& forall|a: int|
                0 <= a < st.symbolic.len() ==> exists|i: int|
                    0 <= i < units.len() && (#[trigger] units[i]).0 == (IdView::Uid {
                        uid: (#[trigger] st.symbolic[a]).0,
                        constant: st.symbolic[a].1,
                    })
            &&& forall|i: int|
                0 <= i < units.len() ==> ((#[trigger] units[i]).0 is Uid ==> exists|a: int|
                    0 <= a < st.symbolic.len() && #[trigger] st.symbolic[a] == (
                        units[i].0->Uid_uid,
                        units[i].0->Uid_constant,
                    ))
            &&& st.models == models.filter(|p: (IdView, Seq<char>)| p.0 is Raw)
        }),
{
    let d = crate::yarp_data::serialize_spec(units, models);
    let sg = shop_group(units);
    let docs = shop_docs(units);
    assert(d.shops == seq![("other"@, docs)]);
    assert(d.shops[0].1 == docs);
    let e0 = crate::yarp_data::empty_regs();
    assert(crate::yarp_data::xform_cats(d.shops, 0, e0) == Result::<
        crate::yarp_data::RegsView,
        crate::errors::ErrorView,
    >::Ok(e0));
    assert(crate::yarp_data::xform_cats(d.shops, 1, e0) == crate::yarp_data::xform_shops(
        docs,
        docs.len() as int,
        e0,
    ));
    assert(crate::yarp_data::xform_shops(docs, docs.len() as int, e0) is Ok);
    assert(rebuilt_good(units, e0));
    lemma_rt_shops(units, docs.len() as int, e0);
    let stc = crate::yarp_data::xform_shops(docs, docs.len() as int, e0)->Ok_0;
    assert(stc.models == Seq::<(IdView, Seq<char>)>::empty());
    let side = serialize_side(models);
    assert(d.stock_models == side);
    models.filter_lemma(|p: (IdView, Seq<char>)| p.0 is Raw);
    lemma_rt_replay(models, side.len() as int, stc);
    let f = models.filter(|p: (IdView, Seq<char>)| p.0 is Raw);
    let st = crate::yarp_data::deserialize_spec(d)->Ok_0;
    assert(st == crate::yarp_data::replay_models(side, side.len() as int, stc));
    assert(st.models == f.take(f.len() as int));
    assert(f.take(f.len() as int) =~= f);
    assert(st.units == stc.units);
    assert(st.symbolic == stc.symbolic);
    // every rebuilt entry is a source entry
    assert forall|j: int|
        0 <= j < st.units.len() implies #[trigger] entry_of(units, st.units[j]) by {
        let i = crate::yarp_meta::key_idx_v(units, st.units[j].0);
        crate::yarp_meta::lemma_key_idx_v(units, st.units[j].0);
        assert(units[i] == st.units[j]);
    }
    // every source entry is rebuilt
    units.filter_lemma(|p: (IdView, UnitView)| is_shop(p));
    assert forall|i: int|
        0 <= i < units.len() implies #[trigger] entry_of(st.units, units[i]) by {
        lemma_rt_present_entry(units, models, i, st);
        let j = choose|j: int| 0 <= j < st.units.len() && #[trigger] st.units[j] == units[i];
        assert(st.units[j] == units[i]);
    }
    // symbolic keys match both ways
    assert forall|a: int|
        0 <= a < st.symbolic.len() implies exists|i: int|
            0 <= i < units.len() && (#[trigger] units[i]).0 == (IdView::Uid {
                uid: (#[trigger] st.symbolic[a]).0,
                constant: st.symbolic[a].1,
            }) by {
        let kv = IdView::Uid { uid: st.symbolic[a].0, constant: st.symbolic[a].1 };
        assert(units_has_key(st.units, kv));
        let j = choose|j: int| 0 <= j < st.units.len() && (#[trigger] st.units[j]).0 == kv;
        let i = crate::yarp_meta::key_idx_v(units, kv);
        crate::yarp_meta::lemma_key_idx_v(units, kv);
        assert(units[i].0 == kv);
    }
    assert forall|i: int|
        0 <= i < units.len() implies ((#[trigger] units[i]).0 is Uid ==> exists|a: int|
            0 <= a < st.symbolic.len() && #[trigger] st.symbolic[a] == (
                units[i].0->Uid_uid,
                units[i].0->Uid_constant,
            )) by {
        if units[i].0 is Uid {
            lemma_rt_present_entry(units, models, i, st);
            let j = choose|j: int| 0 <= j < st.units.len() && (#[trigger] st.units[j]) == units[i];
        }
    }
}

/// In a successful round trip, each covered source entry ends up present in
/// the reconstruction, with its own entity.
proof fn lemma_rt_present_entry(
    units: Seq<(IdView, UnitView)>,
    models: Seq<(IdView, Seq<char>)>,
    i: int,
    st: crate::yarp_data::RegsView,
)
    requires
        round_trip_src(units),
        covered(units),
        0 <= i < units.len(),
        rebuilt_good(units, st),
        ({
            let sg = shop_group(units);
            &&& forall|m: int|
                0 <= m < sg.len() ==> units_has_key(st.units, (#[trigger] sg[m]).0)
            &&& forall|m: int, k: int|
                #![trigger sg[m].1->Custom_variant->Shop_sold[k]]
                0 <= m < sg.len() && 0 <= k < sg[m].1->Custom_variant->Shop_sold.len()
                    ==> units_has_key(st.units, sg[m].1->Custom_variant->Shop_sold[k]) && (
                units[crate::yarp_meta::key_idx_v(
                    units,
                    sg[m].1->Custom_variant->Shop_sold[k],
                )].1 matches UnitView::Custom { variant: VariantView::Builder { built }, .. }
                    ==> forall|b: int|
                    0 <= b < built.len() ==> units_has_key(st.units, #[trigger] built[b]))
        }),
    ensures
        exists|j: int| 0 <= j < st.units.len() && #[trigger] st.units[j] == units[i],
{
    let sg = shop_group(units);
    units.filter_lemma(|p: (IdView, UnitView)| is_shop(p));
    assert(units_has_key(st.units, units[i].0)) by {
        if is_shop(units[i]) {
            assert(sg.contains(units[i]));
            let m = choose|m: int| 0 <= m < sg.len() && sg[m] == units[i];
            assert(units_has_key(st.units, sg[m].0));
        } else {
            let j = choose|j: int|
                0 <= j < units.len() && match (#[trigger] units[j]).1 {
                    UnitView::Custom { variant: VariantView::Shop { sold, .. }, .. } => sold
                        .contains(units[i].0),
                    UnitView::Custom { variant: VariantView::Builder { built }, .. } => built
                        .contains(units[i].0),
                    _ => false,
                };
            match units[j].1 {
                UnitView::Custom { variant: VariantView::Shop { sold, .. }, .. } => {
                    assert(is_shop(units[j]));
                    assert(sg.contains(units[j]));
                    let m = choose|m: int| 0 <= m < sg.len() && sg[m] == units[j];
                    let k = choose|k: int| 0 <= k < sold.len() && sold[k] == units[i].0;
                    assert(sg[m].1->Custom_variant->Shop_sold[k] == units[i].0);
                    assert(units_has_key(st.units, units[i].0));
                },
                UnitView::Custom { variant: VariantView::Builder { built }, .. } => {
                    // the referencing builder is itself sold by some shop
                    assert(!is_shop(units[j]));
                    lemma_rt_builder_is_sold(units, j);
                    let (m, k): (int, int) = choose|m: int, k: int|
                        0 <= m < sg.len() && 0 <= k < sg[m].1->Custom_variant->Shop_sold.len() && (
                        #[trigger] sg[m].1->Custom_variant->Shop_sold[k]) == units[j].0;
                    crate::yarp_meta::lemma_key_idx_v(units, units[j].0);
                    assert(crate::yarp_meta::key_idx_v(units, units[j].0) == j) by {
                        let w = crate::yarp_meta::key_idx_v(units, units[j].0);
                        assert(units[w].0 == units[j].0);
                    }
                    let kb = choose|kb: int| 0 <= kb < built.len() && built[kb] == units[i].0;
                    assert(units_has_key(st.units, built[kb]));
                },
                _ => {
                    assert(false);
                },
            }
        }
    }
    let j2 = choose|j2: int| 0 <= j2 < st.units.len() && (#[trigger] st.units[j2]).0 == units[i].0;
    assert(crate::yarp_meta::key_idx_v(units, units[i].0) == i) by {
        crate::yarp_meta::lemma_key_idx_v(units, units[i].0);
        let w = crate::yarp_meta::key_idx_v(units, units[i].0);
        assert(units[w].0 == units[i].0);
    }
    assert(st.units[j2] == units[i]);
}

/// The only way deserializing any document can fail is a symbolic key
/// allocated twice: every error it raises is a duplicate-identifier error.
pub proof fn lemma_deserialize_errors_are_duplicates(d: crate::yarp_data::DataView)
    requires
        crate::yarp_data::deserialize_spec(d) is Err,
    ensures
        crate::yarp_data::deserialize_spec(d)->Err_0 is Duplicate,
{
    lemma_cats_errors_are_duplicates(d.shops, d.shops.len() as int, crate::yarp_data::empty_regs());
}

/// Errors of the entry transform are duplicate-identifier errors.
proof fn lemma_unit_errors_are_duplicates(
    u: crate::yarp_data::DataUnitView,
    st: crate::yarp_data::RegsView,
)
    requires
        crate::yarp_data::xform_unit(u, st) is Err,
    ensures
        crate::yarp_data::xform_unit(u, st)->Err_0 is Duplicate,
    decreases u, 0int,
{
    match u {
        crate::yarp_data::DataUnitView::Custom { variant, .. } => {
            match variant {
                crate::yarp_data::DataVariantView::Builder { built } => {
                    if crate::yarp_data::xform_children(built, built.len() as int, st) is Err {
                        lemma_children_errors_are_duplicates(built, built.len() as int, st);
                    }
                },
                _ => {},
            }
        },
        crate::yarp_data::DataUnitView::Stock { .. } => {},
    }
}

/// Errors of the list transform are duplicate-identifier errors.
proof fn lemma_children_errors_are_duplicates(
    l: Seq<crate::yarp_data::DataUnitView>,
    n: int,
    st: crate::yarp_data::RegsView,
)
    requires
        crate::yarp_data::xform_children(l, n, st) is Err,
    ensures
        crate::yarp_data::xform_children(l, n, st)->Err_0 is Duplicate,
    decreases l, n,
{
    if !(n <= 0 || n > l.len()) {
        match crate::yarp_data::xform_children(l, n - 1, st) {
            Result::Err(_) => {
                lemma_children_errors_are_duplicates(l, n - 1, st);
            },
            Result::Ok((st1, _)) => {
                lemma_unit_errors_are_duplicates(l[n - 1], st1);
            },
        }
    }
}

/// Errors of the shop transform are duplicate-identifier errors.
proof fn lemma_shop_errors_are_duplicates(
    sh: crate::yarp_data::DataShopView,
    st: crate::yarp_data::RegsView,
)
    requires
        crate::yarp_data::xform_shop(sh, st) is Err,
    ensures
        crate::yarp_data::xform_shop(sh, st)->Err_0 is Duplicate,
{
    if crate::yarp_data::xform_children(sh.sold, sh.sold.len() as int, st) is Err {
        lemma_children_errors_are_duplicates(sh.sold, sh.sold.len() as int, st);
    }
}

/// Errors of the category transform are duplicate-identifier errors.
proof fn lemma_shops_errors_are_duplicates(
    l: Seq<crate::yarp_data::DataShopView>,
    n: int,
    st: crate::yarp_data::RegsView,
)
    requires
        crate::yarp_data::xform_shops(l, n, st) is Err,
    ensures
        crate::yarp_data::xform_shops(l, n, st)->Err_0 is Duplicate,
    decreases n,
{
    if !(n <= 0 || n > l.len()) {
        match crate::yarp_data::xform_shops(l, n - 1, st) {
            Result::Err(_) => {
                lemma_shops_errors_are_duplicates(l, n - 1, st);
            },
            Result::Ok(st1) => {
                lemma_shop_errors_are_duplicates(l[n - 1], st1);
            },
        }
    }
}

/// Errors of the whole document transform are duplicate-identifier errors.
proof fn lemma_cats_errors_are_duplicates(
    l: Seq<(Seq<char>, Seq<crate::yarp_data::DataShopView>)>,
    n: int,
    st: crate::yarp_data::RegsView,
)
    requires
        crate::yarp_data::xform_cats(l, n, st) is Err,
    ensures
        crate::yarp_data::xform_cats(l, n, st)->Err_0 is Duplicate,
    decreases n,
{
    if !(n <= 0 || n > l.len()) {
        match crate::yarp_data::xform_cats(l, n - 1, st) {
            Result::Err(_) => {
                lemma_cats_errors_are_duplicates(l, n - 1, st);
            },
            Result::Ok(st1) => {
                lemma_shops_errors_are_duplicates(l[n - 1].1, l[n - 1].1.len() as int, st1);
            },
        }
    }
}

// ---------------------------------------------------------------------------
// Totality of deserialization
// ---------------------------------------------------------------------------
/// Whether a custom key occurs anywhere in one document entry.
pub open spec fn doc_uid_in(u: crate::yarp_data::DataUnitView, uid: Seq<char>) -> bool
    decreases u, 0int,
{
    match u {
        crate::yarp_data::DataUnitView::Custom { uid: du, variant, .. } => du == uid || (match variant {
            crate::yarp_data::DataVariantView::Builder { built } => doc_uid_in_list(
                built,
                built.len() as int,
                uid,
            ),
            _ => false,
        }),
        crate::yarp_data::DataUnitView::Stock { .. } => false,
    }
}

/// Whether a custom key occurs in the first `n` entries of a document list.
pub open spec fn doc_uid_in_list(
    l: Seq<crate::yarp_data::DataUnitView>,
    n: int,
    uid: Seq<char>,
) -> bool
    decreases l, n,
{
    if n <= 0 || n > l.len() {
        false
    } else {
        doc_uid_in_list(l, n - 1, uid) || doc_uid_in(l[n - 1], uid)
    }
}

/// The custom keys of one document entry are pairwise distinct.
pub open spec fn doc_keys_distinct(u: crate::yarp_data::DataUnitView) -> bool
    decreases u, 0int,
{
    match u {
        crate::yarp_data::DataUnitView::Custom { uid: du, variant, .. } => match variant {
            crate::yarp_data::DataVariantView::Builder { built } => doc_list_distinct(
                built,
                built.len() as int,
            ) && !doc_uid_in_list(built, built.len() as int, du),
            _ => true,
        },
        crate::yarp_data::DataUnitView::Stock { .. } => true,
    }
}

/// The custom keys of the first `n` entries of a document list are pairwise
/// distinct, inside each entry and across entries.
pub open spec fn doc_list_distinct(l: Seq<crate::yarp_data::DataUnitView>, n: int) -> bool
    decreases l, n,
{
    if n <= 0 || n > l.len() {
        true
    } else {
        &&& doc_list_distinct(l, n - 1)
        &&& doc_keys_distinct(l[n - 1])
        &&& forall|uid: Seq<char>| #[trigger] doc_uid_in(l[n - 1], uid) ==> !doc_uid_in_list(l, n - 1, uid)
    }
}

/// Whether a custom key occurs anywhere in one shop document.
pub open spec fn doc_uid_in_shop(sh: crate::yarp_data::DataShopView, uid: Seq<char>) -> bool {
    sh.uid == uid || doc_uid_in_list(sh.sold, sh.sold.len() as int, uid)
}

/// Whether a custom key occurs in the first `n` shops of a category.
pub open spec fn doc_uid_in_shops(
    l: Seq<crate::yarp_data::DataShopView>,
    n: int,
    uid: Seq<char>,
) -> bool
    decreases n,
{
    if n <= 0 || n > l.len() {
        false
    } else {
        doc_uid_in_shops(l, n - 1, uid) || doc_uid_in_shop(l[n - 1], uid)
    }
}

/// The custom keys of the first `n` shops of a category are pairwise
/// distinct.
pub open spec fn doc_shops_distinct(l: Seq<crate::yarp_data::DataShopView>, n: int) -> bool
    decreases n,
{
    if n <= 0 || n > l.len() {
        true
    } else {
        &&& doc_shops_distinct(l, n - 1)
        &&& doc_list_distinct(l[n - 1].sold, l[n - 1].sold.len() as int)
        &&& !doc_uid_in_list(l[n - 1].sold, l[n - 1].sold.len() as int, l[n - 1].uid)
        &&& forall|uid: Seq<char>|
            #[trigger] doc_uid_in_shop(l[n - 1], uid) ==> !doc_uid_in_shops(l, n - 1, uid)
    }
}

/// Whether a custom key occurs in the first `n` shop categories.
pub open spec fn doc_uid_in_cats(
    l: Seq<(Seq<char>, Seq<crate::yarp_data::DataShopView>)>,
    n: int,
    uid: Seq<char>,
) -> bool
    decreases n,
{
    if n <= 0 || n > l.len() {
        false
    } else {
        doc_uid_in_cats(l, n - 1, uid) || doc_uid_in_shops(l[n - 1].1, l[n - 1].1.len() as int, uid)
    }
}

/// The custom keys of the first `n` shop categories are pairwise distinct.
pub open spec fn doc_cats_distinct(
    l: Seq<(Seq<char>, Seq<crate::yarp_data::DataShopView>)>,
    n: int,
) -> bool
    decreases n,
{
    if n <= 0 || n > l.len() {
        true
    } else {
        &&& doc_cats_distinct(l, n - 1)
        &&& doc_shops_distinct(l[n - 1].1, l[n - 1].1.len() as int)
        &&& forall|uid: Seq<char>|
            #[trigger] doc_uid_in_shops(l[n - 1].1, l[n - 1].1.len() as int, uid)
                ==> !doc_uid_in_cats(l, n - 1, uid)
    }
}

/// A whole document with pairwise distinct custom keys.
pub open spec fn doc_distinct(d: crate::yarp_data::DataView) -> bool {
    doc_cats_distinct(d.shops, d.shops.len() as int)
}

/// Appending a key pair registers exactly that one key more.
proof fn lemma_has_uid_push(s: Seq<(Seq<char>, Seq<char>)>, p: (Seq<char>, Seq<char>))
    ensures
        forall|uid: Seq<char>|
            #[trigger] crate::yarp_meta::has_uid(s.push(p), uid) <==> crate::yarp_meta::has_uid(
                s,
                uid,
            ) || p.0 == uid,
{
    assert forall|uid: Seq<char>|
        #[trigger] crate::yarp_meta::has_uid(s.push(p), uid) <==> crate::yarp_meta::has_uid(
            s,
            uid,
        ) || p.0 == uid by {
        if crate::yarp_meta::has_uid(s.push(p), uid) {
            let i = choose|i: int| 0 <= i < s.push(p).len() && s.push(p)[i].0 == uid;
            if i < s.len() {
                assert(s[i].0 == uid);
            }
        }
        if crate::yarp_meta::has_uid(s, uid) {
            let i = choose|i: int| 0 <= i < s.len() && s[i].0 == uid;
            assert(s.push(p)[i].0 == uid);
        }
        if p.0 == uid {
            assert(s.push(p)[s.len() as int].0 == uid);
        }
    }
}

/// Transforming one document entry succeeds whenever its custom keys are
/// distinct among themselves and fresh, and registers exactly those keys.
proof fn lemma_tot_unit(u: crate::yarp_data::DataUnitView, st: crate::yarp_data::RegsView)
    requires
        doc_keys_distinct(u),
        forall|uid: Seq<char>|
            doc_uid_in(u, uid) ==> !crate::yarp_meta::has_uid(st.symbolic, uid),
    ensures
        crate::yarp_data::xform_unit(u, st) is Ok,
        forall|uid: Seq<char>|
            #[trigger] crate::yarp_meta::has_uid(
                crate::yarp_data::xform_unit(u, st)->Ok_0.0.symbolic,
                uid,
            ) <==> crate::yarp_meta::has_uid(st.symbolic, uid) || doc_uid_in(u, uid),
    decreases u, 0int,
{
    match u {
        crate::yarp_data::DataUnitView::Stock { .. } => {
        },
        crate::yarp_data::DataUnitView::Custom { uid: du, variant, .. } => {
            match variant {
                crate::yarp_data::DataVariantView::Builder { built } => {
                    assert forall|uid: Seq<char>|
                        doc_uid_in_list(built, built.len() as int, uid)
                            implies !crate::yarp_meta::has_uid(st.symbolic, uid) by {
                        assert(doc_uid_in(u, uid));
                    }
                    lemma_tot_children(built, built.len() as int, st);
                    let st1 = crate::yarp_data::xform_children(
                        built,
                        built.len() as int,
                        st,
                    )->Ok_0.0;
                    assert(doc_uid_in(u, du));
                    assert(!crate::yarp_meta::has_uid(st1.symbolic, du));
                    lemma_has_uid_push(
                        st1.symbolic,
                        (du, crate::outside::shouty_snake_of(du)),
                    );
                },
                _ => {
                    assert(doc_uid_in(u, du));
                    assert(!crate::yarp_meta::has_uid(st.symbolic, du));
                    lemma_has_uid_push(
                        st.symbolic,
                        (du, crate::outside::shouty_snake_of(du)),
                    );
                },
            }
        },
    }
}

/// Transforming a document list succeeds whenever its custom keys are
/// distinct among themselves and fresh, and registers exactly those keys.
proof fn lemma_tot_children(
    l: Seq<crate::yarp_data::DataUnitView>,
    n: int,
    st: crate::yarp_data::RegsView,
)
    requires
        0 <= n <= l.len(),
        doc_list_distinct(l, n),
        forall|uid: Seq<char>|
            doc_uid_in_list(l, n, uid) ==> !crate::yarp_meta::has_uid(st.symbolic, uid),
    ensures
        crate::yarp_data::xform_children(l, n, st) is Ok,
        forall|uid: Seq<char>|
            #[trigger] crate::yarp_meta::has_uid(
                crate::yarp_data::xform_children(l, n, st)->Ok_0.0.symbolic,
                uid,
            ) <==> crate::yarp_meta::has_uid(st.symbolic, uid) || doc_uid_in_list(l, n, uid),
    decreases l, n,
{
    if n > 0 {
        lemma_tot_children(l, n - 1, st);
        let st1 = crate::yarp_data::xform_children(l, n - 1, st)->Ok_0.0;
        assert forall|uid: Seq<char>|
            doc_uid_in(l[n - 1], uid) implies !crate::yarp_meta::has_uid(st1.symbolic, uid) by {
            assert(doc_uid_in_list(l, n, uid));
        }
        lemma_tot_unit(l[n - 1], st1);
    }
}

/// Transforming one shop document succeeds whenever its custom keys are
/// distinct among themselves and fresh, and registers exactly those keys.
proof fn lemma_tot_shop(sh: crate::yarp_data::DataShopView, st: crate::yarp_data::RegsView)
    requires
        doc_list_distinct(sh.sold, sh.sold.len() as int),
        !doc_uid_in_list(sh.sold, sh.sold.len() as int, sh.uid),
        forall|uid: Seq<char>|
            doc_uid_in_shop(sh, uid) ==> !crate::yarp_meta::has_uid(st.symbolic, uid),
    ensures
        crate::yarp_data::xform_shop(sh, st) is Ok,
        forall|uid: Seq<char>|
            #[trigger] crate::yarp_meta::has_uid(
                crate::yarp_data::xform_shop(sh, st)->Ok_0.symbolic,
                uid,
            ) <==> crate::yarp_meta::has_uid(st.symbolic, uid) || doc_uid_in_shop(sh, uid),
{
    assert forall|uid: Seq<char>|
        doc_uid_in_list(sh.sold, sh.sold.len() as int, uid) implies !crate::yarp_meta::has_uid(
        st.symbolic,
        uid,
    ) by {
        assert(doc_uid_in_shop(sh, uid));
    }
    lemma_tot_children(sh.sold, sh.sold.len() as int, st);
    let st1 = crate::yarp_data::xform_children(sh.sold, sh.sold.len() as int, st)->Ok_0.0;
    assert(doc_uid_in_shop(sh, sh.uid));
    assert(!crate::yarp_meta::has_uid(st1.symbolic, sh.uid));
    lemma_has_uid_push(st1.symbolic, (sh.uid, crate::outside::shouty_snake_of(sh.uid)));
}

/// Transforming a shop category succeeds whenever its custom keys are
/// distinct among themselves and fresh, and registers exactly those keys.
proof fn lemma_tot_shops(
    l: Seq<crate::yarp_data::DataShopView>,
    n: int,
    st: crate::yarp_data::RegsView,
)
    requires
        0 <= n <= l.len(),
        doc_shops_distinct(l, n),
        forall|uid: Seq<char>|
            doc_uid_in_shops(l, n, uid) ==> !crate::yarp_meta::has_uid(st.symbolic, uid),
    ensures
        crate::yarp_data::xform_shops(l, n, st) is Ok,
        forall|uid: Seq<char>|
            #[trigger] crate::yarp_meta::has_uid(
                crate::yarp_data::xform_shops(l, n, st)->Ok_0.symbolic,
                uid,
            ) <==> crate::yarp_meta::has_uid(st.symbolic, uid) || doc_uid_in_shops(l, n, uid),
    decreases n,
{
    if n > 0 {
        lemma_tot_shops(l, n - 1, st);
        let st1 = crate::yarp_data::xform_shops(l, n - 1, st)->Ok_0;
        assert forall|uid: Seq<char>|
            doc_uid_in_shop(l[n - 1], uid) implies !crate::yarp_meta::has_uid(
            st1.symbolic,
            uid,
        ) by {
            assert(doc_uid_in_shops(l, n, uid));
        }
        lemma_tot_shop(l[n - 1], st1);
    }
}

/// Transforming the categories succeeds whenever their custom keys are
/// pairwise distinct and fresh.
proof fn lemma_tot_cats(
    l: Seq<(Seq<char>, Seq<crate::yarp_data::DataShopView>)>,
    n: int,
    st: crate::yarp_data::RegsView,
)
    requires
        0 <= n <= l.len(),
        doc_cats_distinct(l, n),
        forall|uid: Seq<char>|
            doc_uid_in_cats(l, n, uid) ==> !crate::yarp_meta::has_uid(st.symbolic, uid),
    ensures
        crate::yarp_data::xform_cats(l, n, st) is Ok,
        forall|uid: Seq<char>|
            #[trigger] crate::yarp_meta::has_uid(
                crate::yarp_data::xform_cats(l, n, st)->Ok_0.symbolic,
                uid,
            ) <==> crate::yarp_meta::has_uid(st.symbolic, uid) || doc_uid_in_cats(l, n, uid),
    decreases n,
{
    if n > 0 {
        lemma_tot_cats(l, n - 1, st);
        let st1 = crate::yarp_data::xform_cats(l, n - 1, st)->Ok_0;
        assert forall|uid: Seq<char>|
            doc_uid_in_shops(l[n - 1].1, l[n - 1].1.len() as int, uid)
                implies !crate::yarp_meta::has_uid(st1.symbolic, uid) by {
            assert(doc_uid_in_cats(l, n, uid));
        }
        lemma_tot_shops(l[n - 1].1, l[n - 1].1.len() as int, st1);
    }
}

/// Deserializing succeeds on every document whose custom keys are pairwise
/// distinct; together with the error-shape law, deserialization fails
/// exactly on colliding keys.
pub proof fn lemma_deserialize_total(d: crate::yarp_data::DataView)
    requires
        doc_distinct(d),
    ensures
        crate::yarp_data::deserialize_spec(d) is Ok,
{
    let e0 = crate::yarp_data::empty_regs();
    assert forall|uid: Seq<char>|
        doc_uid_in_cats(d.shops, d.shops.len() as int, uid) implies !crate::yarp_meta::has_uid(
        e0.symbolic,
        uid,
    ) by {}
    lemma_tot_cats(d.shops, d.shops.len() as int, e0);
}

// ---------------------------------------------------------------------------
// Serialized documents have distinct keys
// ---------------------------------------------------------------------------
/// The reference list an entity contributes to the serialization walk: a
/// shop's sold list, a builder's built list, nothing otherwise.
pub open spec fn entry_refs(u: UnitView) -> Seq<IdView> {
    match u {
        UnitView::Custom { variant: VariantView::Shop { sold, .. }, .. } => sold,
        UnitView::Custom { variant: VariantView::Builder { built }, .. } => built,
        _ => Seq::empty(),
    }
}

/// Every symbolic key stands in at most one position of all the sold and
/// built lists together: each custom entity is referenced at most once.
pub open spec fn refs_once(units: Seq<(IdView, UnitView)>) -> bool {
    forall|j1: int, k1: int, j2: int, k2: int|
        #![trigger entry_refs(units[j1].1)[k1], entry_refs(units[j2].1)[k2]]
        0 <= j1 < units.len() && 0 <= k1 < entry_refs(units[j1].1).len() && 0 <= j2 < units.len()
            && 0 <= k2 < entry_refs(units[j2].1).len() && entry_refs(units[j1].1)[k1] == entry_refs(
            units[j2].1,
        )[k2] && entry_refs(units[j1].1)[k1] is Uid ==> j1 == j2 && k1 == k2
}

/// Two entities with the same symbolic key text are the same entity: the
/// constant name is derived from the key, so equal keys give equal
/// identifiers, and identifiers are unique.
proof fn lemma_uid_unique(units: Seq<(IdView, UnitView)>, a: int, b: int)
    requires
        round_trip_src(units),
        0 <= a < units.len(),
        0 <= b < units.len(),
        units[a].0 is Uid,
        units[b].0 is Uid,
        units[a].0->Uid_uid == units[b].0->Uid_uid,
    ensures
        a == b,
{
    assert(units[a].0 == units[b].0);
}

/// Whether a symbolic key text occurs in the closure an entity serializes:
/// its own key, or for a builder the keys of what it builds.
pub open spec fn closure_uid_in(units: Seq<(IdView, UnitView)>, u: UnitView, uid: Seq<char>) -> bool
    decreases crate::yarp_data::rank(u), 1int, 0int,
{
    match u {
        UnitView::Custom { id, variant, .. } => id->Uid_uid == uid || (match variant {
            VariantView::Builder { built } => ids_closure_uid_in(
                units,
                built,
                crate::yarp_data::rank(u),
                built.len() as int,
                uid,
            ),
            _ => false,
        }),
        UnitView::Stock { .. } => false,
    }
}

/// Whether a symbolic key text occurs in the closures of the first `n`
/// entities an identifier list resolves to below rank `r`.
pub open spec fn ids_closure_uid_in(
    units: Seq<(IdView, UnitView)>,
    ids: Seq<IdView>,
    r: nat,
    n: int,
    uid: Seq<char>,
) -> bool
    decreases r, 0int, n,
{
    if n <= 0 || n > ids.len() {
        false
    } else {
        ids_closure_uid_in(units, ids, r, n - 1, uid) || {
            let j = crate::yarp_meta::key_idx_v(units, ids[n - 1]);
            j >= 0 && crate::yarp_data::rank(units[j].1) < r && closure_uid_in(
                units,
                units[j].1,
                uid,
            )
        }
    }
}

/// The document entry of an entity mentions exactly the keys of the
/// entity's closure.
proof fn lemma_doc_uid_bridge(units: Seq<(IdView, UnitView)>, u: UnitView, uid: Seq<char>)
    ensures
        doc_uid_in(crate::yarp_data::doc_of_unit(units, u), uid) <==> closure_uid_in(
            units,
            u,
            uid,
        ),
    decreases crate::yarp_data::rank(u), 1int, 0int,
{
    match u {
        UnitView::Custom { id, variant, .. } => {
            match variant {
                VariantView::Builder { built } => {
                    lemma_docs_len(units, built, crate::yarp_data::rank(u));
                    lemma_doc_uid_bridge_list(
                        units,
                        built,
                        crate::yarp_data::rank(u),
                        built.len() as int,
                        uid,
                    );
                },
                _ => {},
            }
        },
        UnitView::Stock { .. } => {},
    }
}

/// The document entries of an identifier list mention exactly the keys of
/// the resolved closures.
proof fn lemma_doc_uid_bridge_list(
    units: Seq<(IdView, UnitView)>,
    ids: Seq<IdView>,
    r: nat,
    n: int,
    uid: Seq<char>,
)
    requires
        0 <= n <= ids.len(),
    ensures
        doc_uid_in_list(crate::yarp_data::docs_of_ids(units, ids, r), n, uid) <==>
            ids_closure_uid_in(units, ids, r, n, uid),
    decreases r, 0int, n,
{
    if n > 0 {
        lemma_doc_uid_bridge_list(units, ids, r, n - 1, uid);
        let l = crate::yarp_data::docs_of_ids(units, ids, r);
        lemma_docs_len(units, ids, r);
        assert(l.len() == ids.len());
        assert(doc_uid_in_list(l, n, uid) == (doc_uid_in_list(l, n - 1, uid) || doc_uid_in(
            l[n - 1],
            uid,
        )));
        lemma_docs_of_ids_index(units, ids, r, n - 1);
        let j = crate::yarp_meta::key_idx_v(units, ids[n - 1]);
        assert(ids_closure_uid_in(units, ids, r, n, uid) == (ids_closure_uid_in(
            units,
            ids,
            r,
            n - 1,
            uid,
        ) || (j >= 0 && crate::yarp_data::rank(units[j].1) < r && closure_uid_in(
            units,
            units[j].1,
            uid,
        ))));
        if j >= 0 && crate::yarp_data::rank(units[j].1) < r {
            assert(l[n - 1] == crate::yarp_data::doc_of_unit(units, units[j].1));
            lemma_doc_uid_bridge(units, units[j].1, uid);
            assert(doc_uid_in(l[n - 1], uid) == closure_uid_in(units, units[j].1, uid));
        } else {
            assert(l[n - 1] == (crate::yarp_data::DataUnitView::Stock {
                rawid: Seq::empty(),
                model: Seq::empty(),
            }));
            assert(!doc_uid_in(l[n - 1], uid));
        }
    }
}

/// A document list is as long as the identifier list it came from.
proof fn lemma_docs_len(units: Seq<(IdView, UnitView)>, ids: Seq<IdView>, r: nat)
    ensures
        crate::yarp_data::docs_of_ids(units, ids, r).len() == ids.len(),
    decreases ids.len(),
{
    if ids.len() > 0 {
        lemma_docs_len(units, ids.drop_last(), r);
    }
}

/// One entry of a document list, whether or not its identifier resolves.
proof fn lemma_docs_of_ids_index(units: Seq<(IdView, UnitView)>, ids: Seq<IdView>, r: nat, k: int)
    requires
        0 <= k < ids.len(),
    ensures
        ({
            let j = crate::yarp_meta::key_idx_v(units, ids[k]);
            crate::yarp_data::docs_of_ids(units, ids, r)[k] == if j >= 0
                && crate::yarp_data::rank(units[j].1) < r {
                crate::yarp_data::doc_of_unit(units, units[j].1)
            } else {
                crate::yarp_data::DataUnitView::Stock { rawid: Seq::empty(), model: Seq::empty() }
            }
        }),
    decreases ids.len(),
{
    lemma_docs_len(units, ids, r);
    if ids.len() > 0 {
        if k == ids.len() - 1 {
            lemma_docs_len(units, ids.drop_last(), r);
        } else {
            lemma_docs_of_ids_index(units, ids.drop_last(), r, k);
            assert(ids.drop_last()[k] == ids[k]);
            lemma_docs_len(units, ids.drop_last(), r);
            assert(crate::yarp_data::docs_of_ids(units, ids, r)[k] == crate::yarp_data::docs_of_ids(
                units,
                ids.drop_last(),
                r,
            )[k]);
        }
    }
}

/// Whether the reference at one list position names the key, directly or
/// through the built list of the builder it resolves to.
pub open spec fn ref_carries_uid_at(
    units: Seq<(IdView, UnitView)>,
    ids: Seq<IdView>,
    k: int,
    uid: Seq<char>,
) -> bool {
    ((ids[k] is Uid && ids[k]->Uid_uid == uid) || {
        let j = crate::yarp_meta::key_idx_v(units, ids[k]);
        0 <= j < units.len() && exists|kb: int|
            0 <= kb < entry_refs(units[j].1).len() && (#[trigger] entry_refs(units[j].1)[kb])
                is Uid && entry_refs(units[j].1)[kb]->Uid_uid == uid
    })
}

/// A key in the closures of a list resolving to plain entities is named by
/// one of the list's references directly.
proof fn lemma_built_closure_occ(
    units: Seq<(IdView, UnitView)>,
    ids: Seq<IdView>,
    n: int,
    uid: Seq<char>,
)
    requires
        round_trip_src(units),
        forall|k: int|
            0 <= k < ids.len() ==> crate::yarp_meta::key_idx_v(units, #[trigger] ids[k]) >= 0
                && crate::yarp_data::rank(
                units[crate::yarp_meta::key_idx_v(units, ids[k])].1,
            ) < 1,
        0 <= n <= ids.len(),
        ids_closure_uid_in(units, ids, 1nat, n, uid),
    ensures
        exists|k: int| 0 <= k < n && (#[trigger] ids[k]) is Uid && ids[k]->Uid_uid == uid,
    decreases n,
{
    if n > 0 {
        if ids_closure_uid_in(units, ids, 1nat, n - 1, uid) {
            lemma_built_closure_occ(units, ids, n - 1, uid);
        } else {
            let j = crate::yarp_meta::key_idx_v(units, ids[n - 1]);
            crate::yarp_meta::lemma_key_idx_v(units, ids[n - 1]);
            assert(closure_uid_in(units, units[j].1, uid));
            assert(crate::yarp_data::rank(units[j].1) == 0);
            assert(units[j].0 == ids[n - 1]);
            assert(crate::yarp_meta::unit_id_view(units[j].1) == units[j].0);
            match units[j].1 {
                UnitView::Custom { id, .. } => {
                    assert(id->Uid_uid == uid);
                    assert((ids[n - 1]) is Uid && ids[n - 1]->Uid_uid == uid);
                },
                UnitView::Stock { .. } => {
                    assert(false);
                },
            }
        }
    }
}

/// A key in the closures of a sold list is carried by one of the sold
/// references.
proof fn lemma_sold_closure_occ(
    units: Seq<(IdView, UnitView)>,
    ids: Seq<IdView>,
    n: int,
    uid: Seq<char>,
)
    requires
        round_trip_src(units),
        forall|k: int|
            0 <= k < ids.len() ==> crate::yarp_meta::key_idx_v(units, #[trigger] ids[k]) >= 0
                && crate::yarp_data::rank(
                units[crate::yarp_meta::key_idx_v(units, ids[k])].1,
            ) < 2,
        0 <= n <= ids.len(),
        ids_closure_uid_in(units, ids, 2nat, n, uid),
    ensures
        exists|k: int| 0 <= k < n && #[trigger] ref_carries_uid_at(units, ids, k, uid),
    decreases n,
{
    if n > 0 {
        if ids_closure_uid_in(units, ids, 2nat, n - 1, uid) {
            lemma_sold_closure_occ(units, ids, n - 1, uid);
        } else {
            let j = crate::yarp_meta::key_idx_v(units, ids[n - 1]);
            crate::yarp_meta::lemma_key_idx_v(units, ids[n - 1]);
            assert(closure_uid_in(units, units[j].1, uid));
            assert(units[j].0 == ids[n - 1]);
            assert(crate::yarp_meta::unit_id_view(units[j].1) == units[j].0);
            match units[j].1 {
                UnitView::Custom { id, variant, .. } => {
                    if id->Uid_uid == uid {
                        assert(ref_carries_uid_at(units, ids, n - 1, uid));
                    } else {
                        match variant {
                            VariantView::Builder { built } => {
                                assert(crate::yarp_data::resolvable(units, built, 0));
                                assert forall|k: int|
                                    0 <= k < built.len() implies crate::yarp_meta::key_idx_v(
                                    units,
                                    #[trigger] built[k],
                                ) >= 0 && crate::yarp_data::rank(
                                    units[crate::yarp_meta::key_idx_v(units, built[k])].1,
                                ) < 1 by {}
                                lemma_built_closure_occ(units, built, built.len() as int, uid);
                                let kb = choose|kb: int|
                                    0 <= kb < built.len() && (#[trigger] built[kb]) is Uid
                                        && built[kb]->Uid_uid == uid;
                                assert(entry_refs(units[j].1) == built);
                                assert(entry_refs(units[j].1)[kb] is Uid && entry_refs(
                                    units[j].1,
                                )[kb]->Uid_uid == uid);
                                assert(ref_carries_uid_at(units, ids, n - 1, uid));
                            },
                            _ => {
                                assert(false);
                            },
                        }
                    }
                },
                UnitView::Stock { .. } => {
                    assert(false);
                },
            }
        }
    }
}

/// The built documents of a builder have pairwise distinct keys: each
/// built entity is referenced once, so its key is written once.
proof fn lemma_built_docs_distinct(
    units: Seq<(IdView, UnitView)>,
    holder: int,
    built: Seq<IdView>,
    n: int,
)
    requires
        round_trip_src(units),
        refs_once(units),
        0 <= holder < units.len(),
        crate::yarp_data::rank(units[holder].1) == 1,
        entry_refs(units[holder].1) == built,
        forall|k: int|
            0 <= k < built.len() ==> crate::yarp_meta::key_idx_v(units, #[trigger] built[k]) >= 0
                && crate::yarp_data::rank(
                units[crate::yarp_meta::key_idx_v(units, built[k])].1,
            ) < 1,
        0 <= n <= built.len(),
    ensures
        doc_list_distinct(crate::yarp_data::docs_of_ids(units, built, 1nat), n),
    decreases n,
{
    let l = crate::yarp_data::docs_of_ids(units, built, 1nat);
    lemma_docs_len(units, built, 1nat);
    if n > 0 {
        lemma_built_docs_distinct(units, holder, built, n - 1);
        lemma_docs_of_ids_index(units, built, 1nat, n - 1);
        let j = crate::yarp_meta::key_idx_v(units, built[n - 1]);
        crate::yarp_meta::lemma_key_idx_v(units, built[n - 1]);
        assert(l[n - 1] == crate::yarp_data::doc_of_unit(units, units[j].1));
        assert(doc_keys_distinct(l[n - 1])) by {
            match units[j].1 {
                UnitView::Custom { variant, .. } => {
                    assert(!(variant is Builder));
                },
                UnitView::Stock { .. } => {},
            }
        }
        assert forall|uid: Seq<char>|
            #[trigger] doc_uid_in(l[n - 1], uid) implies !doc_uid_in_list(l, n - 1, uid) by {
            lemma_doc_uid_bridge(units, units[j].1, uid);
            assert(closure_uid_in(units, units[j].1, uid));
            assert(crate::yarp_meta::unit_id_view(units[j].1) == units[j].0);
            assert(built[n - 1] is Uid && built[n - 1]->Uid_uid == uid) by {
                match units[j].1 {
                    UnitView::Custom { id, .. } => {
                        assert(id->Uid_uid == uid);
                        assert(units[j].0 == built[n - 1]);
                    },
                    UnitView::Stock { .. } => {
                        assert(false);
                    },
                }
            }
            if doc_uid_in_list(l, n - 1, uid) {
                lemma_doc_uid_bridge_list(units, built, 1nat, n - 1, uid);
                lemma_built_closure_occ(units, built, n - 1, uid);
                let k = choose|k: int|
                    0 <= k < n - 1 && (#[trigger] built[k]) is Uid && built[k]->Uid_uid == uid;
                let jk = crate::yarp_meta::key_idx_v(units, built[k]);
                crate::yarp_meta::lemma_key_idx_v(units, built[k]);
                assert(units[jk].0 == built[k]);
                lemma_uid_unique(units, jk, j);
                assert(built[k] == built[n - 1]);
                assert(entry_refs(units[holder].1)[k] == entry_refs(units[holder].1)[n - 1]);
                assert(k == n - 1);
                assert(false);
            }
        }
    }
}

/// The document of one serialized entity has pairwise distinct keys.
proof fn lemma_doc_unit_keys_distinct(units: Seq<(IdView, UnitView)>, j: int)
    requires
        round_trip_src(units),
        refs_once(units),
        0 <= j < units.len(),
        crate::yarp_data::rank(units[j].1) <= 1,
    ensures
        doc_keys_distinct(crate::yarp_data::doc_of_unit(units, units[j].1)),
{
    match units[j].1 {
        UnitView::Custom { id, variant, .. } => {
            match variant {
                VariantView::Builder { built } => {
                    assert(crate::yarp_data::resolvable(units, built, 0));
                    assert forall|k: int|
                        0 <= k < built.len() implies crate::yarp_meta::key_idx_v(
                        units,
                        #[trigger] built[k],
                    ) >= 0 && crate::yarp_data::rank(
                        units[crate::yarp_meta::key_idx_v(units, built[k])].1,
                    ) < 1 by {}
                    assert(entry_refs(units[j].1) == built);
                    lemma_built_docs_distinct(units, j, built, built.len() as int);
                    lemma_docs_len(units, built, 1nat);
                    let uid = id->Uid_uid;
                    assert(!doc_uid_in_list(
                        crate::yarp_data::docs_of_ids(units, built, 1nat),
                        built.len() as int,
                        uid,
                    )) by {
                        if doc_uid_in_list(
                            crate::yarp_data::docs_of_ids(units, built, 1nat),
                            built.len() as int,
                            uid,
                        ) {
                            lemma_doc_uid_bridge_list(units, built, 1nat, built.len() as int, uid);
                            lemma_built_closure_occ(units, built, built.len() as int, uid);
                            let k = choose|k: int|
                                0 <= k < built.len() && (#[trigger] built[k]) is Uid
                                    && built[k]->Uid_uid == uid;
                            let jk = crate::yarp_meta::key_idx_v(units, built[k]);
                            crate::yarp_meta::lemma_key_idx_v(units, built[k]);
                            assert(units[jk].0 == built[k]);
                            assert(crate::yarp_meta::unit_id_view(units[j].1) == units[j].0);
                            assert(units[j].0 is Uid && units[j].0->Uid_uid == uid);
                            lemma_uid_unique(units, jk, j);
                            assert(false);
                        }
                    }
                },
                _ => {},
            }
        },
        UnitView::Stock { .. } => {},
    }
}

/// The key of the entity a Uid reference resolves to is the reference
/// itself.
proof fn lemma_uid_ref_target(units: Seq<(IdView, UnitView)>, id: IdView)
    requires
        crate::yarp_meta::key_idx_v(units, id) >= 0,
    ensures
        units[crate::yarp_meta::key_idx_v(units, id)].0 == id,
        crate::yarp_meta::key_idx_v(units, id) < units.len(),
{
    crate::yarp_meta::lemma_key_idx_v(units, id);
}

/// Across all shops, at most one sold position carries any given key,
/// directly or through a sold builder: the two carrying positions coincide.
proof fn lemma_sold_carry_unique(
    units: Seq<(IdView, UnitView)>,
    shop1: int,
    sold1: Seq<IdView>,
    k1: int,
    shop2: int,
    sold2: Seq<IdView>,
    k2: int,
    uid: Seq<char>,
)
    requires
        round_trip_src(units),
        refs_once(units),
        0 <= shop1 < units.len(),
        0 <= shop2 < units.len(),
        crate::yarp_data::rank(units[shop1].1) == 2,
        crate::yarp_data::rank(units[shop2].1) == 2,
        entry_refs(units[shop1].1) == sold1,
        entry_refs(units[shop2].1) == sold2,
        forall|k: int|
            0 <= k < sold1.len() ==> crate::yarp_meta::key_idx_v(units, #[trigger] sold1[k]) >= 0
                && crate::yarp_data::rank(
                units[crate::yarp_meta::key_idx_v(units, sold1[k])].1,
            ) < 2,
        forall|k: int|
            0 <= k < sold2.len() ==> crate::yarp_meta::key_idx_v(units, #[trigger] sold2[k]) >= 0
                && crate::yarp_data::rank(
                units[crate::yarp_meta::key_idx_v(units, sold2[k])].1,
            ) < 2,
        0 <= k1 < sold1.len(),
        0 <= k2 < sold2.len(),
        ref_carries_uid_at(units, sold1, k1, uid),
        ref_carries_uid_at(units, sold2, k2, uid),
    ensures
        shop1 == shop2,
        k1 == k2,
{
    let j1 = crate::yarp_meta::key_idx_v(units, sold1[k1]);
    let j2 = crate::yarp_meta::key_idx_v(units, sold2[k2]);
    lemma_uid_ref_target(units, sold1[k1]);
    lemma_uid_ref_target(units, sold2[k2]);
    if sold1[k1] is Uid && sold1[k1]->Uid_uid == uid {
        if sold2[k2] is Uid && sold2[k2]->Uid_uid == uid {
            // both direct: the same entity's key at two sold positions
            lemma_uid_unique(units, j1, j2);
            assert(sold1[k1] == sold2[k2]);
            assert(entry_refs(units[shop1].1)[k1] == entry_refs(units[shop2].1)[k2]);
        } else {
            // direct against a sold builder's built entry: two occurrences
            // of the same key at entries of different ranks
            let kb2 = choose|kb: int|
                0 <= kb < entry_refs(units[j2].1).len() && (#[trigger] entry_refs(
                    units[j2].1,
                )[kb]) is Uid && entry_refs(units[j2].1)[kb]->Uid_uid == uid;
            assert(crate::yarp_data::rank(units[j2].1) == 1) by {
                match units[j2].1 {
                    UnitView::Custom { variant, .. } => {
                        assert(entry_refs(units[j2].1).len() > 0);
                        assert(variant is Builder || variant is Shop);
                    },
                    UnitView::Stock { .. } => {
                        assert(entry_refs(units[j2].1).len() == 0);
                    },
                }
            }
            assert(crate::yarp_data::resolvable(units, entry_refs(units[j2].1), 0));
            lemma_uid_ref_target(units, entry_refs(units[j2].1)[kb2]);
            let e2 = crate::yarp_meta::key_idx_v(units, entry_refs(units[j2].1)[kb2]);
            lemma_uid_unique(units, j1, e2);
            assert(entry_refs(units[j2].1)[kb2] == sold1[k1]);
            assert(entry_refs(units[shop1].1)[k1] == entry_refs(units[j2].1)[kb2]);
            assert(shop1 == j2 && k1 == kb2);
            assert(false);
        }
    } else {
        let kb1 = choose|kb: int|
            0 <= kb < entry_refs(units[j1].1).len() && (#[trigger] entry_refs(
                units[j1].1,
            )[kb]) is Uid && entry_refs(units[j1].1)[kb]->Uid_uid == uid;
        assert(crate::yarp_data::rank(units[j1].1) == 1) by {
            match units[j1].1 {
                UnitView::Custom { variant, .. } => {
                    assert(entry_refs(units[j1].1).len() > 0);
                    assert(variant is Builder || variant is Shop);
                },
                UnitView::Stock { .. } => {
                    assert(entry_refs(units[j1].1).len() == 0);
                },
            }
        }
        assert(crate::yarp_data::resolvable(units, entry_refs(units[j1].1), 0));
        lemma_uid_ref_target(units, entry_refs(units[j1].1)[kb1]);
        let e1 = crate::yarp_meta::key_idx_v(units, entry_refs(units[j1].1)[kb1]);
        if sold2[k2] is Uid && sold2[k2]->Uid_uid == uid {
            lemma_uid_unique(units, e1, j2);
            assert(entry_refs(units[j1].1)[kb1] == sold2[k2]);
            assert(entry_refs(units[j1].1)[kb1] == entry_refs(units[shop2].1)[k2]);
            assert(j1 == shop2 && kb1 == k2);
            assert(false);
        } else {
            let kb2 = choose|kb: int|
                0 <= kb < entry_refs(units[j2].1).len() && (#[trigger] entry_refs(
                    units[j2].1,
                )[kb]) is Uid && entry_refs(units[j2].1)[kb]->Uid_uid == uid;
            assert(crate::yarp_data::rank(units[j2].1) == 1) by {
                match units[j2].1 {
                    UnitView::Custom { variant, .. } => {
                        assert(entry_refs(units[j2].1).len() > 0);
                        assert(variant is Builder || variant is Shop);
                    },
                    UnitView::Stock { .. } => {
                        assert(entry_refs(units[j2].1).len() == 0);
                    },
                }
            }
            assert(crate::yarp_data::resolvable(units, entry_refs(units[j2].1), 0));
            lemma_uid_ref_target(units, entry_refs(units[j2].1)[kb2]);
            let e2 = crate::yarp_meta::key_idx_v(units, entry_refs(units[j2].1)[kb2]);
            lemma_uid_unique(units, e1, e2);
            assert(entry_refs(units[j1].1)[kb1] == entry_refs(units[j2].1)[kb2]);
            assert(j1 == j2 && kb1 == kb2);
            // the same builder sold at both positions
            assert(sold1[k1] == sold2[k2]);
            assert(units[j1].0 is Uid);
            assert(entry_refs(units[shop1].1)[k1] == entry_refs(units[shop2].1)[k2]);
        }
    }
}

/// A key in the closure of one sold position is carried by that position.
proof fn lemma_closure_carries(
    units: Seq<(IdView, UnitView)>,
    ids: Seq<IdView>,
    k: int,
    uid: Seq<char>,
)
    requires
        round_trip_src(units),
        forall|kk: int|
            0 <= kk < ids.len() ==> crate::yarp_meta::key_idx_v(units, #[trigger] ids[kk]) >= 0
                && crate::yarp_data::rank(
                units[crate::yarp_meta::key_idx_v(units, ids[kk])].1,
            ) < 2,
        0 <= k < ids.len(),
        closure_uid_in(units, units[crate::yarp_meta::key_idx_v(units, ids[k])].1, uid),
    ensures
        ref_carries_uid_at(units, ids, k, uid),
{
    let j = crate::yarp_meta::key_idx_v(units, ids[k]);
    lemma_uid_ref_target(units, ids[k]);
    assert(crate::yarp_meta::unit_id_view(units[j].1) == units[j].0);
    match units[j].1 {
        UnitView::Custom { id, variant, .. } => {
            if id->Uid_uid == uid {
            } else {
                match variant {
                    VariantView::Builder { built } => {
                        assert(crate::yarp_data::resolvable(units, built, 0));
                        assert forall|kk: int|
                            0 <= kk < built.len() implies crate::yarp_meta::key_idx_v(
                            units,
                            #[trigger] built[kk],
                        ) >= 0 && crate::yarp_data::rank(
                            units[crate::yarp_meta::key_idx_v(units, built[kk])].1,
                        ) < 1 by {}
                        lemma_built_closure_occ(units, built, built.len() as int, uid);
                        let kb = choose|kb: int|
                            0 <= kb < built.len() && (#[trigger] built[kb]) is Uid
                                && built[kb]->Uid_uid == uid;
                        assert(entry_refs(units[j].1) == built);
                        assert(entry_refs(units[j].1)[kb] is Uid && entry_refs(
                            units[j].1,
                        )[kb]->Uid_uid == uid);
                    },
                    _ => {
                        assert(false);
                    },
                }
            }
        },
        UnitView::Stock { .. } => {
            assert(false);
        },
    }
}

/// The sold documents of one shop have pairwise distinct keys.
proof fn lemma_sold_docs_distinct(
    units: Seq<(IdView, UnitView)>,
    shop_idx: int,
    sold: Seq<IdView>,
    n: int,
)
    requires
        round_trip_src(units),
        refs_once(units),
        0 <= shop_idx < units.len(),
        crate::yarp_data::rank(units[shop_idx].1) == 2,
        entry_refs(units[shop_idx].1) == sold,
        forall|k: int|
            0 <= k < sold.len() ==> crate::yarp_meta::key_idx_v(units, #[trigger] sold[k]) >= 0
                && crate::yarp_data::rank(
                units[crate::yarp_meta::key_idx_v(units, sold[k])].1,
            ) < 2,
        0 <= n <= sold.len(),
    ensures
        doc_list_distinct(crate::yarp_data::docs_of_ids(units, sold, 2nat), n),
    decreases n,
{
    let l = crate::yarp_data::docs_of_ids(units, sold, 2nat);
    lemma_docs_len(units, sold, 2nat);
    if n > 0 {
        lemma_sold_docs_distinct(units, shop_idx, sold, n - 1);
        lemma_docs_of_ids_index(units, sold, 2nat, n - 1);
        let j = crate::yarp_meta::key_idx_v(units, sold[n - 1]);
        crate::yarp_meta::lemma_key_idx_v(units, sold[n - 1]);
        assert(l[n - 1] == crate::yarp_data::doc_of_unit(units, units[j].1));
        lemma_doc_unit_keys_distinct(units, j);
        assert forall|uid: Seq<char>|
            #[trigger] doc_uid_in(l[n - 1], uid) implies !doc_uid_in_list(l, n - 1, uid) by {
            lemma_doc_uid_bridge(units, units[j].1, uid);
            lemma_closure_carries(units, sold, n - 1, uid);
            if doc_uid_in_list(l, n - 1, uid) {
                lemma_doc_uid_bridge_list(units, sold, 2nat, n - 1, uid);
                lemma_sold_closure_occ(units, sold, n - 1, uid);
                let k = choose|k: int|
                    0 <= k < n - 1 && #[trigger] ref_carries_uid_at(units, sold, k, uid);
                lemma_sold_carry_unique(
                    units,
                    shop_idx,
                    sold,
                    k,
                    shop_idx,
                    sold,
                    n - 1,
                    uid,
                );
                assert(false);
            }
        }
    }
}

/// A shop's own key never stands among its sold documents.
proof fn lemma_shop_uid_not_in_sold(
    units: Seq<(IdView, UnitView)>,
    shop_idx: int,
    sold: Seq<IdView>,
)
    requires
        round_trip_src(units),
        refs_once(units),
        0 <= shop_idx < units.len(),
        crate::yarp_data::rank(units[shop_idx].1) == 2,
        entry_refs(units[shop_idx].1) == sold,
        forall|k: int|
            0 <= k < sold.len() ==> crate::yarp_meta::key_idx_v(units, #[trigger] sold[k]) >= 0
                && crate::yarp_data::rank(
                units[crate::yarp_meta::key_idx_v(units, sold[k])].1,
            ) < 2,
    ensures
        !doc_uid_in_list(
            crate::yarp_data::docs_of_ids(units, sold, 2nat),
            sold.len() as int,
            units[shop_idx].0->Uid_uid,
        ),
{
    let uid = units[shop_idx].0->Uid_uid;
    assert(crate::yarp_meta::unit_id_view(units[shop_idx].1) == units[shop_idx].0);
    assert(units[shop_idx].0 is Uid);
    if doc_uid_in_list(
        crate::yarp_data::docs_of_ids(units, sold, 2nat),
        sold.len() as int,
        uid,
    ) {
        lemma_doc_uid_bridge_list(units, sold, 2nat, sold.len() as int, uid);
        lemma_sold_closure_occ(units, sold, sold.len() as int, uid);
        let k = choose|k: int|
            0 <= k < sold.len() && #[trigger] ref_carries_uid_at(units, sold, k, uid);
        let j = crate::yarp_meta::key_idx_v(units, sold[k]);
        lemma_uid_ref_target(units, sold[k]);
        if sold[k] is Uid && sold[k]->Uid_uid == uid {
            lemma_uid_unique(units, j, shop_idx);
            assert(false);
        } else {
            let kb = choose|kb: int|
                0 <= kb < entry_refs(units[j].1).len() && (#[trigger] entry_refs(
                    units[j].1,
                )[kb]) is Uid && entry_refs(units[j].1)[kb]->Uid_uid == uid;
            assert(crate::yarp_data::rank(units[j].1) == 1) by {
                match units[j].1 {
                    UnitView::Custom { variant, .. } => {
                        assert(entry_refs(units[j].1).len() > 0);
                        assert(variant is Builder || variant is Shop);
                    },
                    UnitView::Stock { .. } => {
                        assert(entry_refs(units[j].1).len() == 0);
                    },
                }
            }
            assert(crate::yarp_data::resolvable(units, entry_refs(units[j].1), 0));
            lemma_uid_ref_target(units, entry_refs(units[j].1)[kb]);
            let e = crate::yarp_meta::key_idx_v(units, entry_refs(units[j].1)[kb]);
            lemma_uid_unique(units, e, shop_idx);
            assert(false);
        }
    }
}

/// A key somewhere in the first shops of a category is in one shop of them.
proof fn lemma_shops_mem(l: Seq<crate::yarp_data::DataShopView>, m: int, uid: Seq<char>)
    requires
        0 <= m <= l.len(),
        doc_uid_in_shops(l, m, uid),
    ensures
        exists|mm: int| 0 <= mm < m && #[trigger] doc_uid_in_shop(l[mm], uid),
    decreases m,
{
    if m > 0 {
        if doc_uid_in_shops(l, m - 1, uid) {
            lemma_shops_mem(l, m - 1, uid);
        } else {
            assert(doc_uid_in_shop(l[m - 1], uid));
        }
    }
}

/// A carried key names an entity below shop rank.
proof fn lemma_carry_names_low_rank(
    units: Seq<(IdView, UnitView)>,
    sold: Seq<IdView>,
    k: int,
    uid: Seq<char>,
)
    requires
        round_trip_src(units),
        forall|kk: int|
            0 <= kk < sold.len() ==> crate::yarp_meta::key_idx_v(units, #[trigger] sold[kk]) >= 0
                && crate::yarp_data::rank(
                units[crate::yarp_meta::key_idx_v(units, sold[kk])].1,
            ) < 2,
        0 <= k < sold.len(),
        ref_carries_uid_at(units, sold, k, uid),
    ensures
        exists|e: int|
            0 <= e < units.len() && (#[trigger] units[e].0) is Uid && units[e].0->Uid_uid == uid
                && crate::yarp_data::rank(units[e].1) < 2,
{
    let j = crate::yarp_meta::key_idx_v(units, sold[k]);
    lemma_uid_ref_target(units, sold[k]);
    if sold[k] is Uid && sold[k]->Uid_uid == uid {
        assert(units[j].0 is Uid && units[j].0->Uid_uid == uid);
    } else {
        let kb = choose|kb: int|
            0 <= kb < entry_refs(units[j].1).len() && (#[trigger] entry_refs(
                units[j].1,
            )[kb]) is Uid && entry_refs(units[j].1)[kb]->Uid_uid == uid;
        assert(crate::yarp_data::rank(units[j].1) == 1) by {
            match units[j].1 {
                UnitView::Custom { variant, .. } => {
                    assert(entry_refs(units[j].1).len() > 0);
                    assert(variant is Builder || variant is Shop);
                },
                UnitView::Stock { .. } => {
                    assert(entry_refs(units[j].1).len() == 0);
                },
            }
        }
        assert(crate::yarp_data::resolvable(units, entry_refs(units[j].1), 0));
        lemma_uid_ref_target(units, entry_refs(units[j].1)[kb]);
        let e = crate::yarp_meta::key_idx_v(units, entry_refs(units[j].1)[kb]);
        assert(units[e].0 is Uid && units[e].0->Uid_uid == uid && crate::yarp_data::rank(
            units[e].1,
        ) < 2);
    }
}

/// Two shops that write the same key are the same shop.
proof fn lemma_two_shops_share_uid(
    units: Seq<(IdView, UnitView)>,
    ma: int,
    mb: int,
    uid: Seq<char>,
)
    requires
        round_trip_src(units),
        refs_once(units),
        0 <= ma < shop_group(units).len(),
        0 <= mb < shop_group(units).len(),
        doc_uid_in_shop(shop_docs(units)[ma], uid),
        doc_uid_in_shop(shop_docs(units)[mb], uid),
    ensures
        ma == mb,
{
    if ma == mb {
        return ;
    }
    let sg = shop_group(units);
    units.filter_lemma(|p: (IdView, UnitView)| is_shop(p));
    lemma_filter_subset(units, |p: (IdView, UnitView)| is_shop(p));
    assert forall|a: int, b: int|
        0 <= a < b < units.len() implies (#[trigger] units[a]).0 != (#[trigger] units[b]).0 by {}
    lemma_filter_keys_distinct(units, |p: (IdView, UnitView)| is_shop(p));
    let ia = choose|i: int| 0 <= i < units.len() && units[i] == sg[ma];
    let ib = choose|i: int| 0 <= i < units.len() && units[i] == sg[mb];
    assert(sg[ma].0 != sg[mb].0);
    assert(ia != ib);
    assert(is_shop(units[ia]) && is_shop(units[ib]));
    assert(crate::yarp_meta::unit_id_view(units[ia].1) == units[ia].0);
    assert(crate::yarp_meta::unit_id_view(units[ib].1) == units[ib].0);
    let solda = units[ia].1->Custom_variant->Shop_sold;
    let soldb = units[ib].1->Custom_variant->Shop_sold;
    assert(crate::yarp_data::resolvable(units, solda, 1));
    assert(crate::yarp_data::resolvable(units, soldb, 1));
    assert forall|k: int|
        0 <= k < solda.len() implies crate::yarp_meta::key_idx_v(units, #[trigger] solda[k]) >= 0
            && crate::yarp_data::rank(
            units[crate::yarp_meta::key_idx_v(units, solda[k])].1,
        ) < 2 by {}
    assert forall|k: int|
        0 <= k < soldb.len() implies crate::yarp_meta::key_idx_v(units, #[trigger] soldb[k]) >= 0
            && crate::yarp_data::rank(
            units[crate::yarp_meta::key_idx_v(units, soldb[k])].1,
        ) < 2 by {}
    assert(shop_docs(units)[ma] == crate::yarp_data::doc_of_shop(units, sg[ma]));
    assert(shop_docs(units)[mb] == crate::yarp_data::doc_of_shop(units, sg[mb]));
    lemma_docs_len(units, solda, 2nat);
    lemma_docs_len(units, soldb, 2nat);
    let in_a_own = sg[ma].0->Uid_uid == uid;
    let in_b_own = sg[mb].0->Uid_uid == uid;
    if in_a_own && in_b_own {
        assert(units[ia].0 is Uid && units[ib].0 is Uid);
        lemma_uid_unique(units, ia, ib);
        assert(false);
    } else if in_a_own {
        assert(doc_uid_in_list(
            crate::yarp_data::docs_of_ids(units, soldb, 2nat),
            soldb.len() as int,
            uid,
        ));
        lemma_doc_uid_bridge_list(units, soldb, 2nat, soldb.len() as int, uid);
        lemma_sold_closure_occ(units, soldb, soldb.len() as int, uid);
        let k = choose|k: int|
            0 <= k < soldb.len() && #[trigger] ref_carries_uid_at(units, soldb, k, uid);
        lemma_carry_names_low_rank(units, soldb, k, uid);
        let e = choose|e: int|
            0 <= e < units.len() && (#[trigger] units[e].0) is Uid && units[e].0->Uid_uid == uid
                && crate::yarp_data::rank(units[e].1) < 2;
        lemma_uid_unique(units, e, ia);
        assert(false);
    } else if in_b_own {
        assert(doc_uid_in_list(
            crate::yarp_data::docs_of_ids(units, solda, 2nat),
            solda.len() as int,
            uid,
        ));
        lemma_doc_uid_bridge_list(units, solda, 2nat, solda.len() as int, uid);
        lemma_sold_closure_occ(units, solda, solda.len() as int, uid);
        let k = choose|k: int|
            0 <= k < solda.len() && #[trigger] ref_carries_uid_at(units, solda, k, uid);
        lemma_carry_names_low_rank(units, solda, k, uid);
        let e = choose|e: int|
            0 <= e < units.len() && (#[trigger] units[e].0) is Uid && units[e].0->Uid_uid == uid
                && crate::yarp_data::rank(units[e].1) < 2;
        lemma_uid_unique(units, e, ib);
        assert(false);
    } else {
        assert(doc_uid_in_list(
            crate::yarp_data::docs_of_ids(units, solda, 2nat),
            solda.len() as int,
            uid,
        ));
        assert(doc_uid_in_list(
            crate::yarp_data::docs_of_ids(units, soldb, 2nat),
            soldb.len() as int,
            uid,
        ));
        lemma_doc_uid_bridge_list(units, solda, 2nat, solda.len() as int, uid);
        lemma_doc_uid_bridge_list(units, soldb, 2nat, soldb.len() as int, uid);
        lemma_sold_closure_occ(units, solda, solda.len() as int, uid);
        lemma_sold_closure_occ(units, soldb, soldb.len() as int, uid);
        let ka = choose|k: int|
            0 <= k < solda.len() && #[trigger] ref_carries_uid_at(units, solda, k, uid);
        let kb = choose|k: int|
            0 <= k < soldb.len() && #[trigger] ref_carries_uid_at(units, soldb, k, uid);
        assert(entry_refs(units[ia].1) == solda);
        assert(entry_refs(units[ib].1) == soldb);
        lemma_sold_carry_unique(units, ia, solda, ka, ib, soldb, kb, uid);
        assert(false);
    }
}

/// The shop documents of the serialization walk have pairwise distinct
/// keys, inside each shop and across shops.
proof fn lemma_shop_docs_distinct(units: Seq<(IdView, UnitView)>, n: int)
    requires
        round_trip_src(units),
        refs_once(units),
        0 <= n <= shop_group(units).len(),
    ensures
        doc_shops_distinct(shop_docs(units), n),
    decreases n,
{
    let sg = shop_group(units);
    let l = shop_docs(units);
    if n > 0 {
        lemma_shop_docs_distinct(units, n - 1);
        units.filter_lemma(|p: (IdView, UnitView)| is_shop(p));
        lemma_filter_subset(units, |p: (IdView, UnitView)| is_shop(p));
        let i = choose|i: int| 0 <= i < units.len() && units[i] == sg[n - 1];
        assert(is_shop(units[i]));
        assert(crate::yarp_meta::unit_id_view(units[i].1) == units[i].0);
        let sold = units[i].1->Custom_variant->Shop_sold;
        assert(crate::yarp_data::resolvable(units, sold, 1));
        assert forall|k: int|
            0 <= k < sold.len() implies crate::yarp_meta::key_idx_v(units, #[trigger] sold[k])
                >= 0 && crate::yarp_data::rank(
                units[crate::yarp_meta::key_idx_v(units, sold[k])].1,
            ) < 2 by {}
        assert(l[n - 1] == crate::yarp_data::doc_of_shop(units, sg[n - 1]));
        lemma_docs_len(units, sold, 2nat);
        assert(l[n - 1].sold == crate::yarp_data::docs_of_ids(units, sold, 2nat));
        lemma_sold_docs_distinct(units, i, sold, sold.len() as int);
        lemma_shop_uid_not_in_sold(units, i, sold);
        assert(l[n - 1].uid == units[i].0->Uid_uid);
        assert forall|uid: Seq<char>|
            #[trigger] doc_uid_in_shop(l[n - 1], uid) implies !doc_uid_in_shops(l, n - 1, uid) by {
            if doc_uid_in_shops(l, n - 1, uid) {
                lemma_shops_mem(l, n - 1, uid);
                let mm = choose|mm: int| 0 <= mm < n - 1 && #[trigger] doc_uid_in_shop(l[mm], uid);
                lemma_two_shops_share_uid(units, mm, n - 1, uid);
                assert(false);
            }
        }
    }
}

/// Serializing a registry whose entities are each referenced at most once
/// yields a document with pairwise distinct keys, which therefore
/// deserializes successfully.
pub proof fn lemma_serialized_doc_distinct(
    units: Seq<(IdView, UnitView)>,
    models: Seq<(IdView, Seq<char>)>,
)
    requires
        round_trip_src(units),
        refs_once(units),
    ensures
        doc_distinct(crate::yarp_data::serialize_spec(units, models)),
{
    let d = crate::yarp_data::serialize_spec(units, models);
    assert(d.shops[0].1 =~= shop_docs(units));
    lemma_shop_docs_distinct(units, shop_group(units).len() as int);
    assert(doc_cats_distinct(d.shops, 0));
    assert(doc_shops_distinct(d.shops[0].1, d.shops[0].1.len() as int)) by {
        assert(d.shops[0].1.len() == shop_docs(units).len());
    }
    assert forall|uid: Seq<char>|
        #[trigger] doc_uid_in_shops(d.shops[0].1, d.shops[0].1.len() as int, uid)
            implies !doc_uid_in_cats(d.shops, 0, uid) by {}
}

/// The round trip, complete: a registry whose entities are each reachable
/// from exactly one shop serializes to a collision-free document, the
/// document deserializes successfully, and the reconstruction carries the
/// same entity and identifier sets and the replayed raw model bindings.
pub proof fn lemma_round_trip_complete(
    units: Seq<(IdView, UnitView)>,
    models: Seq<(IdView, Seq<char>)>,
)
    requires
        round_trip_src(units),
        covered(units),
        refs_once(units),
        forall|a: int, b: int|
            0 <= a < b < models.len() ==> (#[trigger] models[a]).0 != (#[trigger] models[b]).0,
    ensures
        crate::yarp_data::deserialize_spec(
            crate::yarp_data::serialize_spec(units, models),
        ) is Ok,
        ({
            let st = crate::yarp_data::deserialize_spec(
                crate::yarp_data::serialize_spec(units, models),
            )->Ok_0;
            &&& forall|j: int|
                0 <= j < st.units.len() ==> #[trigger] entry_of(units, st.units[j])
            &&& forall|i: int|
                0 <= i < units.len() ==> #[trigger] entry_of(st.units, units[i])
            &&& st.models == models.filter(|p: (IdView, Seq<char>)| p.0 is Raw)
        }),
{
    lemma_serialized_doc_distinct(units, models);
    lemma_deserialize_total(crate::yarp_data::serialize_spec(units, models));
    lemma_round_trip(units, models);
}

/// A builder that some entity references is sold by some shop: builders can
/// stand only in sold lists, never in built lists.
proof fn lemma_rt_builder_is_sold(units: Seq<(IdView, UnitView)>, j: int)
    requires
        round_trip_src(units),
        covered(units),
        0 <= j < units.len(),
        units[j].1 is Custom,
        units[j].1->Custom_variant is Builder,
    ensures
        exists|m: int, k: int|
            0 <= m < shop_group(units).len() && 0 <= k < shop_group(
                units,
            )[m].1->Custom_variant->Shop_sold.len() && (#[trigger] shop_group(
                units,
            )[m].1->Custom_variant->Shop_sold[k]) == units[j].0,
{
    let sg = shop_group(units);
    units.filter_lemma(|p: (IdView, UnitView)| is_shop(p));
    assert(!is_shop(units[j]));
    assert(crate::yarp_meta::key_idx_v(units, units[j].0) == j) by {
        crate::yarp_meta::lemma_key_idx_v(units, units[j].0);
        let w = crate::yarp_meta::key_idx_v(units, units[j].0);
        assert(units[w].0 == units[j].0);
    }
    let r = choose|r: int|
        0 <= r < units.len() && match (#[trigger] units[r]).1 {
            UnitView::Custom { variant: VariantView::Shop { sold, .. }, .. } => sold.contains(
                units[j].0,
            ),
            UnitView::Custom { variant: VariantView::Builder { built }, .. } => built.contains(
                units[j].0,
            ),
            _ => false,
        };
    match units[r].1 {
        UnitView::Custom { variant: VariantView::Shop { sold, .. }, .. } => {
            assert(is_shop(units[r]));
            assert(sg.contains(units[r]));
            let m = choose|m: int| 0 <= m < sg.len() && sg[m] == units[r];
            let k = choose|k: int| 0 <= k < sold.len() && sold[k] == units[j].0;
            assert(sg[m].1->Custom_variant->Shop_sold[k] == units[j].0);
        },
        UnitView::Custom { variant: VariantView::Builder { built }, .. } => {
            // impossible: built lists resolve to rank-0 entities only
            assert(crate::yarp_data::resolvable(units, built, 0));
            let k = choose|k: int| 0 <= k < built.len() && built[k] == units[j].0;
            assert(crate::yarp_data::rank(
                units[crate::yarp_meta::key_idx_v(units, built[k])].1,
            ) <= 0);
            assert(crate::yarp_data::rank(units[j].1) == 1);
            assert(false);
        },
        _ => {
            assert(false);
        },
    }
}

} // verus!
