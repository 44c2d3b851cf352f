use vstd::prelude::*;
use crate::errors::ErrorView;
use crate::errors::YarpError;
use crate::yarp_meta::IdRegistry;
use crate::yarp_meta::IdView;
use crate::yarp_meta::ModelRegistry;
use crate::yarp_meta::Registries;
use crate::yarp_meta::UnitIdentifier;
use crate::yarp_meta::UnitRegistry;
use crate::yarp_meta::UnitView;
use crate::yarp_meta::VariantView;
use crate::yarp_meta::YarpUnit;
use crate::yarp_meta::ids_view;
use crate::yarp_meta::key_idx_v;
use crate::yarp_meta::lemma_key_idx_v;
use crate::yarp_meta::unit_id_view;

verus! {

// ---------------------------------------------------------------------------
// The interchange document
// ---------------------------------------------------------------------------
/// The structured, hand-editable snapshot of the entity graph: named shop
/// categories and a side table of raw-key model bindings.
#[derive(Debug, PartialEq, Eq)]
pub struct YarpData {
    pub shops: Vec<(String, Vec<YarpDataUnitShop>)>,
    pub stock_model_registry: Vec<(String, String)>,
}

/// One shop document, with its ordered sold entries.  The scale is carried
/// as numeric text.
#[derive(Debug, PartialEq, Eq)]
pub struct YarpDataUnitShop {
    pub uid: String,
    pub name: String,
    pub model: String,
    pub row: i32,
    pub col: i32,
    pub scale: String,
    pub sold: Vec<YarpDataUnit>,
}

/// One sold entry: custom content or a reference to a built-in item.
#[derive(Debug, PartialEq, Eq)]
pub enum YarpDataUnit {
    Custom(YarpDataCustomUnit),
    Stock(YarpDataStockUnit),
}

/// A custom entity in the document, with its variant tag and, for builders,
/// its nested built list.
#[derive(Debug, PartialEq, Eq)]
pub struct YarpDataCustomUnit {
    pub uid: String,
    pub name: String,
    pub model: String,
    pub icon: String,
    pub variant: YarpDataUnitVariant,
}

/// A built-in item in the document: its raw key and model.
#[derive(Debug, PartialEq, Eq)]
pub struct YarpDataStockUnit {
    pub rawid: String,
    pub model: String,
}

/// The variant tag of a custom document entry.
#[derive(Debug, PartialEq, Eq)]
pub enum YarpDataUnitVariant {
    Unit,
    Building,
    Builder { built: Vec<YarpDataUnit> },
}

/// One model binding as the document writes it: by raw key or by symbolic
/// key.
#[derive(Debug, PartialEq, Eq)]
pub enum YarpDataModelEntry {
    ByRawid { rawid: String, model: String },
    ByUid { uid: String, model: String },
}

// ---------------------------------------------------------------------------
// Mathematical model of the document
// ---------------------------------------------------------------------------
/// Mathematical model of a `YarpDataUnit`.
#[verifier::ext_equal]
pub enum DataUnitView {
    Custom {
        uid: Seq<char>,
        name: Seq<char>,
        model: Seq<char>,
        icon: Seq<char>,
        variant: DataVariantView,
    },
    Stock { rawid: Seq<char>, model: Seq<char> },
}

/// Mathematical model of a `YarpDataUnitVariant`.
#[verifier::ext_equal]
pub enum DataVariantView {
    Unit,
    Building,
    Builder { built: Seq<DataUnitView> },
}

/// Mathematical model of a `YarpDataUnitShop`.
#[verifier::ext_equal]
pub ghost struct DataShopView {
    pub uid: Seq<char>,
    pub name: Seq<char>,
    pub model: Seq<char>,
    pub row: int,
    pub col: int,
    pub scale: Seq<char>,
    pub sold: Seq<DataUnitView>,
}

/// Mathematical model of a `YarpData` document.
#[verifier::ext_equal]
pub ghost struct DataView {
    pub shops: Seq<(Seq<char>, Seq<DataShopView>)>,
    pub stock_models: Seq<(Seq<char>, Seq<char>)>,
}

/// The view of one document entry.
pub open spec fn data_unit_view(u: YarpDataUnit) -> DataUnitView
    decreases u, 0int,
{
    match u {
        YarpDataUnit::Custom(c) => DataUnitView::Custom {
            uid: c.uid@,
            name: c.name@,
            model: c.model@,
            icon: c.icon@,
            variant: match c.variant {
                YarpDataUnitVariant::Unit => DataVariantView::Unit,
                YarpDataUnitVariant::Building => DataVariantView::Building,
                YarpDataUnitVariant::Builder { built } => DataVariantView::Builder {
                    built: data_units_view(built@, built@.len() as int),
                },
            },
        },
        YarpDataUnit::Stock(s) => DataUnitView::Stock { rawid: s.rawid@, model: s.model@ },
    }
}

/// The views of the first `n` entries of a document list.
pub open spec fn data_units_view(l: Seq<YarpDataUnit>, n: int) -> Seq<DataUnitView>
    decreases l, n,
{
    if n <= 0 || n > l.len() {
        Seq::empty()
    } else {
        data_units_view(l, n - 1).push(data_unit_view(l[n - 1]))
    }
}

/// The views of a whole document list, pointwise.
pub proof fn lemma_data_units_view(l: Seq<YarpDataUnit>, n: int)
    requires
        0 <= n <= l.len(),
    ensures
        data_units_view(l, n).len() == n,
        forall|k: int| 0 <= k < n ==> #[trigger] data_units_view(l, n)[k] == data_unit_view(l[k]),
    decreases n,
{
    if n > 0 {
        lemma_data_units_view(l, n - 1);
    }
}

impl View for YarpDataUnit {
    type V = DataUnitView;

    open spec fn view(&self) -> DataUnitView {
        data_unit_view(*self)
    }
}

impl View for YarpDataUnitShop {
    type V = DataShopView;

    open spec fn view(&self) -> DataShopView {
        DataShopView {
            uid: self.uid@,
            name: self.name@,
            model: self.model@,
            row: self.row as int,
            col: self.col as int,
            scale: self.scale@,
            sold: self.sold@.map_values(|u: YarpDataUnit| data_unit_view(u)),
        }
    }
}

impl View for YarpData {
    type V = DataView;

    open spec fn view(&self) -> DataView {
        DataView {
            shops: self.shops@.map_values(
                |c: (String, Vec<YarpDataUnitShop>)|
                    (c.0@, c.1@.map_values(|s: YarpDataUnitShop| s@)),
            ),
            stock_models: self.stock_model_registry@.map_values(
                |p: (String, String)| (p.0@, p.1@),
            ),
        }
    }
}

// ---------------------------------------------------------------------------
// Serialization
// ---------------------------------------------------------------------------
/// The nesting rank of an entity: shops contain builders, builders contain
/// plain content.
pub open spec fn rank(u: UnitView) -> nat {
    match u {
        UnitView::Custom { variant: VariantView::Shop { .. }, .. } => 2,
        UnitView::Custom { variant: VariantView::Builder { .. }, .. } => 1,
        _ => 0,
    }
}

/// Every identifier of the list resolves to an entity of rank at most
/// `max_rank`.
pub open spec fn resolvable(
    units: Seq<(IdView, UnitView)>,
    ids: Seq<IdView>,
    max_rank: nat,
) -> bool {
    forall|k: int|
        0 <= k < ids.len() ==> key_idx_v(units, #[trigger] ids[k]) >= 0 && rank(
            units[key_idx_v(units, ids[k])].1,
        ) <= max_rank
}

/// A registry the transform can serialize: every entity carries its own
/// key, shops sell resolvable non-shop content, and builders build
/// resolvable plain content.
pub open spec fn serializable(units: Seq<(IdView, UnitView)>) -> bool {
    &&& forall|i: int|
        0 <= i < units.len() ==> unit_id_view((#[trigger] units[i]).1) == units[i].0
    &&& forall|i: int|
        0 <= i < units.len() ==> match (#[trigger] units[i]).1 {
            UnitView::Stock { id, .. } => id is Raw,
            UnitView::Custom { id, .. } => id is Uid,
        }
    &&& forall|i: int|
        0 <= i < units.len() ==> match (#[trigger] units[i]).1 {
            UnitView::Custom { variant: VariantView::Shop { sold, .. }, .. } => resolvable(
                units,
                sold,
                1,
            ),
            UnitView::Custom { variant: VariantView::Builder { built }, .. } => resolvable(
                units,
                built,
                0,
            ),
            _ => true,
        }
}

/// The document entry of one entity.
pub open spec fn doc_of_unit(units: Seq<(IdView, UnitView)>, u: UnitView) -> DataUnitView
    decreases rank(u), 1int, 0int,
{
    match u {
        UnitView::Stock { id, model } => DataUnitView::Stock { rawid: id->Raw_rawid, model },
        UnitView::Custom { id, variant, name, model, icon } => DataUnitView::Custom {
            uid: id->Uid_uid,
            name,
            model,
            icon,
            variant: match variant {
                VariantView::Unit => DataVariantView::Unit,
                VariantView::Building => DataVariantView::Building,
                VariantView::Builder { built } => DataVariantView::Builder {
                    built: docs_of_ids(units, built, rank(u)),
                },
                VariantView::Shop { .. } => DataVariantView::Unit,
            },
        },
    }
}

/// The document entries of a list of identifiers, each resolved in the
/// registry; an identifier that does not resolve below `r` yields an empty
/// stock entry, which a serializable registry never produces.
pub open spec fn docs_of_ids(units: Seq<(IdView, UnitView)>, ids: Seq<IdView>, r: nat) -> Seq<
    DataUnitView,
>
    decreases r, 0int, ids.len(),
{
    if ids.len() == 0 {
        Seq::empty()
    } else {
        docs_of_ids(units, ids.drop_last(), r).push(
            {
                let j = key_idx_v(units, ids.last());
                if j >= 0 && rank(units[j].1) < r {
                    doc_of_unit(units, units[j].1)
                } else {
                    DataUnitView::Stock { rawid: Seq::empty(), model: Seq::empty() }
                }
            },
        )
    }
}

/// The document of one shop entry.
pub open spec fn doc_of_shop(units: Seq<(IdView, UnitView)>, p: (IdView, UnitView)) -> DataShopView {
    DataShopView {
        uid: p.0->Uid_uid,
        name: p.1->Custom_name,
        model: p.1->Custom_model,
        row: 0,
        col: 0,
        scale: p.1->Custom_variant->Shop_scale,
        sold: docs_of_ids(units, p.1->Custom_variant->Shop_sold, 2),
    }
}

/// What serializing the registries yields: one category holding every shop
/// in emission order, each sold entry expanded recursively, and the raw-key
/// bindings of the model registry as the side table.
pub open spec fn serialize_spec(
    units: Seq<(IdView, UnitView)>,
    models: Seq<(IdView, Seq<char>)>,
) -> DataView {
    DataView {
        shops: seq![
            (
                "other"@,
                crate::codegen::shop_group(units).map_values(
                    |p: (IdView, UnitView)| doc_of_shop(units, p),
                ),
            ),
        ],
        stock_models: models.filter(|p: (IdView, Seq<char>)| p.0 is Raw).map_values(
            |p: (IdView, Seq<char>)| (p.0->Raw_rawid, p.1),
        ),
    }
}

impl YarpDataUnit {
    /// The document entry of one entity, its sold or built lists expanded
    /// from the registry.
    fn from_unit(unit: &YarpUnit, id_registry: &IdRegistry, unit_registry: &UnitRegistry) -> (r:
        YarpDataUnit)
        requires
            serializable(unit_registry@),
            rank(unit@) <= 1,
            exists|i: int|
                0 <= i < unit_registry@.len() && (#[trigger] unit_registry@[i]).1 == unit@,
        ensures
            r@ == doc_of_unit(unit_registry@, unit@),
        decreases rank(unit@), 1int, 0int,
    {
        match unit {
            YarpUnit::Stock { id, model } => {
                proof {
                    let i = choose|i: int|
                        0 <= i < unit_registry@.len() && (#[trigger] unit_registry@[i]).1
                            == unit@;
                    assert(unit_id_view(unit_registry@[i].1) == unit_registry@[i].0);
                }
                YarpDataUnit::Stock(
                    YarpDataStockUnit { rawid: id.rawid().to_owned(), model: model.clone() },
                )
            },
            YarpUnit::Custom { id, variant, name, model, icon } => {
                proof {
                    let i = choose|i: int|
                        0 <= i < unit_registry@.len() && (#[trigger] unit_registry@[i]).1
                            == unit@;
                    assert(unit_id_view(unit_registry@[i].1) == unit_registry@[i].0);
                }
                let doc_variant: YarpDataUnitVariant = match variant {
                    crate::yarp_meta::YarpUnitVariant::Unit => YarpDataUnitVariant::Unit,
                    crate::yarp_meta::YarpUnitVariant::Building => YarpDataUnitVariant::Building,
                    crate::yarp_meta::YarpUnitVariant::Builder { built_ids } => {
                        proof {
                            let i = choose|i: int|
                                0 <= i < unit_registry@.len() && (#[trigger] unit_registry@[i]).1
                                    == unit@;
                            assert(resolvable(unit_registry@, ids_view(built_ids@), 0));
                        }
                        let mut built: Vec<YarpDataUnit> = Vec::new();
                        let mut k: usize = 0;
                        proof {
                            assert(ids_view(built_ids@).take(0) =~= Seq::<IdView>::empty());
                        }
                        while k < built_ids.len()
                            invariant
                                k <= built_ids@.len(),
                                serializable(unit_registry@),
                                resolvable(unit_registry@, ids_view(built_ids@), 0),
                                rank(unit@) == 1,
                                built@.map_values(|u: YarpDataUnit| data_unit_view(u))
                                    == docs_of_ids(
                                    unit_registry@,
                                    ids_view(built_ids@).take(k as int),
                                    1,
                                ),
                            decreases built_ids@.len() - k,
                        {
                            proof {
                                assert(ids_view(built_ids@)[k as int] == built_ids@[k as int]@);
                                lemma_key_idx_v(unit_registry@, built_ids@[k as int]@);
                            }
                            let child = unit_registry.get(&built_ids[k]);
                            built.push(
                                YarpDataUnit::from_unit(child, id_registry, unit_registry),
                            );
                            k += 1;
                            proof {
                                let ids = ids_view(built_ids@);
                                assert(ids.take(k as int).drop_last() =~= ids.take(k as int - 1));
                                assert(ids.take(k as int).last() == ids[k as int - 1]);
                                assert(built@.map_values(|u: YarpDataUnit| data_unit_view(u))
                                    =~= docs_of_ids(unit_registry@, ids.take(k as int), 1));
                            }
                        }
                        proof {
                            assert(ids_view(built_ids@).take(built_ids@.len() as int) =~= ids_view(
                                built_ids@,
                            ));
                            lemma_data_units_view(built@, built@.len() as int);
                            assert(data_units_view(built@, built@.len() as int) =~= built@
                                .map_values(|u: YarpDataUnit| data_unit_view(u)));
                        }
                        YarpDataUnitVariant::Builder { built }
                    },
                    crate::yarp_meta::YarpUnitVariant::UnitShop { .. } => unreached(),
                };
                YarpDataUnit::Custom(
                    YarpDataCustomUnit {
                        uid: id.uid().to_owned(),
                        name: name.clone(),
                        icon: icon.clone(),
                        model: model.clone(),
                        variant: doc_variant,
                    },
                )
            },
        }
    }
}

impl YarpData {
    /// Serialize the registries into the interchange document: walk the
    /// shops in emission order, expand each sold entry recursively, and
    /// flatten the model registry's raw-key bindings into the side table.
    #[verifier::loop_isolation(false)]
    #[verifier::rlimit(80)]
    pub fn from_meta(
        id_registry: &IdRegistry,
        unit_registry: &UnitRegistry,
        model_registry: &ModelRegistry,
    ) -> (r: YarpData)
        requires
            serializable(unit_registry@),
        ensures
            r@ == serialize_spec(unit_registry@, model_registry@),
    {
        let ghost lv = unit_registry@;
        let entries = unit_registry.entries();
        let mut unit_shops: Vec<YarpDataUnitShop> = Vec::new();
        let mut i: usize = 0;
        proof {
            reveal(Seq::filter);
            assert(lv.take(0) =~= Seq::<(IdView, UnitView)>::empty());
            assert(unit_shops@.map_values(|s: YarpDataUnitShop| s@) =~= crate::codegen::shop_group(
                lv.take(0),
            ).map_values(|p: (IdView, UnitView)| doc_of_shop(lv, p)));
        }
        while i < entries.len()
            invariant
                i <= entries@.len(),
                unit_shops@.map_values(|s: YarpDataUnitShop| s@) == crate::codegen::shop_group(
                    lv.take(i as int),
                ).map_values(|p: (IdView, UnitView)| doc_of_shop(lv, p)),
            decreases entries@.len() - i,
        {
            proof {
                reveal(Seq::filter);
                assert(lv.take(i + 1).drop_last() =~= lv.take(i as int));
                assert(lv.take(i + 1).last() == lv[i as int]);
                assert(lv[i as int] == (entries@[i as int].0@, entries@[i as int].1@));
            }
            let p = &entries[i];
            match &p.1 {
                YarpUnit::Custom {
                    id,
                    name,
                    model,
                    variant: crate::yarp_meta::YarpUnitVariant::UnitShop { sold_ids, scale },
                    ..
                } => {
                    proof {
                        assert(crate::codegen::is_shop(lv[i as int]));
                        assert(unit_id_view(lv[i as int].1) == lv[i as int].0);
                        assert(resolvable(lv, ids_view(sold_ids@), 1));
                    }
                    let mut sold: Vec<YarpDataUnit> = Vec::new();
                    let mut k: usize = 0;
                    proof {
                        assert(ids_view(sold_ids@).take(0) =~= Seq::<IdView>::empty());
                    }
                    while k < sold_ids.len()
                        invariant
                            k <= sold_ids@.len(),
                            resolvable(lv, ids_view(sold_ids@), 1),
                            sold@.map_values(|u: YarpDataUnit| data_unit_view(u)) == docs_of_ids(
                                lv,
                                ids_view(sold_ids@).take(k as int),
                                2,
                            ),
                        decreases sold_ids@.len() - k,
                    {
                        proof {
                            assert(ids_view(sold_ids@)[k as int] == sold_ids@[k as int]@);
                            lemma_key_idx_v(lv, sold_ids@[k as int]@);
                        }
                        let child = unit_registry.get(&sold_ids[k]);
                        sold.push(YarpDataUnit::from_unit(child, id_registry, unit_registry));
                        k += 1;
                        proof {
                            let ids = ids_view(sold_ids@);
                            assert(ids.take(k as int).drop_last() =~= ids.take(k as int - 1));
                            assert(ids.take(k as int).last() == ids[k as int - 1]);
                            assert(sold@.map_values(|u: YarpDataUnit| data_unit_view(u))
                                =~= docs_of_ids(lv, ids.take(k as int), 2));
                        }
                    }
                    proof {
                        assert(ids_view(sold_ids@).take(sold_ids@.len() as int) =~= ids_view(
                            sold_ids@,
                        ));
                    }
                    let ghost pre = unit_shops@;
                    let shop_doc = YarpDataUnitShop {
                        uid: p.0.uid().to_owned(),
                        name: name.clone(),
                        model: model.clone(),
                        row: 0,
                        col: 0,
                        scale: scale.clone(),
                        sold,
                    };
                    let ghost sv = shop_doc@;
                    unit_shops.push(shop_doc);
                    proof {
                        reveal(Seq::filter);
                        let g1 = crate::codegen::shop_group(lv.take(i + 1));
                        let g0 = crate::codegen::shop_group(lv.take(i as int));
                        assert(g1 == g0.push(lv[i as int]));
                        assert(sv =~= doc_of_shop(lv, lv[i as int]));
                        assert forall|j: int|
                            0 <= j < unit_shops@.len() implies (#[trigger] unit_shops@[j])@
                            == g1.map_values(|p: (IdView, UnitView)| doc_of_shop(lv, p))[j] by {
                            if j < pre.len() {
                                assert(pre.map_values(|s: YarpDataUnitShop| s@)[j] == pre[j]@);
                                assert(unit_shops@[j] == pre[j]);
                                assert(g1[j] == g0[j]);
                            } else {
                                assert(unit_shops@[j]@ == sv);
                                assert(g1[j] == lv[i as int]);
                            }
                        }
                        assert(unit_shops@.map_values(|s: YarpDataUnitShop| s@)
                            =~= crate::codegen::shop_group(lv.take(i + 1)).map_values(
                            |p: (IdView, UnitView)| doc_of_shop(lv, p),
                        ));
                    }
                },
                _ => {
                    proof {
                        reveal(Seq::filter);
                        assert(!crate::codegen::is_shop(lv[i as int]));
                        assert(crate::codegen::shop_group(lv.take(i + 1))
                            == crate::codegen::shop_group(lv.take(i as int)));
                    }
                },
            }
            i += 1;
        }
        proof {
            assert(lv.take(entries@.len() as int) =~= lv);
        }
        let mut shops: Vec<(String, Vec<YarpDataUnitShop>)> = Vec::new();
        shops.push(("other".to_owned(), unit_shops));
        // the side table of raw-key model bindings
        let m_entries = model_registry.entries();
        let ghost mv = model_registry@;
        let mut stock_model_registry: Vec<(String, String)> = Vec::new();
        let mut k: usize = 0;
        proof {
            reveal(Seq::filter);
            assert(mv.take(0) =~= Seq::<(IdView, Seq<char>)>::empty());
            assert(stock_model_registry@.map_values(|p: (String, String)| (p.0@, p.1@))
                =~= mv.take(0).filter(|p: (IdView, Seq<char>)| p.0 is Raw).map_values(
                |p: (IdView, Seq<char>)| (p.0->Raw_rawid, p.1),
            ));
        }
        while k < m_entries.len()
            invariant
                k <= m_entries@.len(),
                stock_model_registry@.map_values(|p: (String, String)| (p.0@, p.1@)) == mv.take(
                    k as int,
                ).filter(|p: (IdView, Seq<char>)| p.0 is Raw).map_values(
                    |p: (IdView, Seq<char>)| (p.0->Raw_rawid, p.1),
                ),
            decreases m_entries@.len() - k,
        {
            proof {
                reveal(Seq::filter);
                assert(mv.take(k + 1).drop_last() =~= mv.take(k as int));
                assert(mv.take(k + 1).last() == mv[k as int]);
                assert(mv[k as int] == (m_entries@[k as int].0@, m_entries@[k as int].1@));
            }
            let ghost pre = stock_model_registry@;
            match &m_entries[k].0 {
                UnitIdentifier::RawID { rawid } => {
                    stock_model_registry.push((rawid.clone(), m_entries[k].1.clone()));
                    proof {
                        let f1 = mv.take(k + 1).filter(|p: (IdView, Seq<char>)| p.0 is Raw);
                        let f0 = mv.take(k as int).filter(|p: (IdView, Seq<char>)| p.0 is Raw);
                        assert(f1 == f0.push(mv[k as int]));
                        assert forall|j: int|
                            0 <= j < stock_model_registry@.len() implies (
                            #[trigger] stock_model_registry@[j].0@,
                            stock_model_registry@[j].1@,
                        ) == f1.map_values(|p: (IdView, Seq<char>)| (p.0->Raw_rawid, p.1))[j] by {
                            if j < pre.len() {
                                assert(pre.map_values(|p: (String, String)| (p.0@, p.1@))[j] == (
                                    pre[j].0@,
                                    pre[j].1@,
                                ));
                                assert(stock_model_registry@[j] == pre[j]);
                                assert(f1[j] == f0[j]);
                            } else {
                                assert(f1[j] == mv[k as int]);
                            }
                        }
                        assert(stock_model_registry@.map_values(
                            |p: (String, String)| (p.0@, p.1@),
                        ) =~= f1.map_values(|p: (IdView, Seq<char>)| (p.0->Raw_rawid, p.1)));
                    }
                },
                UnitIdentifier::UID { .. } => {
                    proof {
                        assert(mv.take(k + 1).filter(|p: (IdView, Seq<char>)| p.0 is Raw)
                            == mv.take(k as int).filter(|p: (IdView, Seq<char>)| p.0 is Raw));
                    }
                },
            }
            k += 1;
        }
        proof {
            assert(mv.take(m_entries@.len() as int) =~= mv);
        }
        let r = YarpData { shops, stock_model_registry };
        proof {
            assert(r@.shops =~= serialize_spec(lv, mv).shops);
            assert(r@ =~= serialize_spec(lv, mv));
        }
        r
    }
}

// ---------------------------------------------------------------------------
// Deserialization
// ---------------------------------------------------------------------------
/// The three registries of a run, at the view level.
#[verifier::ext_equal]
pub ghost struct RegsView {
    pub symbolic: Seq<(Seq<char>, Seq<char>)>,
    pub units: Seq<(IdView, UnitView)>,
    pub models: Seq<(IdView, Seq<char>)>,
}

/// The view of a `Registries` value.
pub open spec fn regs_of(r: Registries) -> RegsView {
    RegsView { symbolic: r.id@, units: r.unit@, models: r.model@ }
}

/// Empty registries, at the view level.
pub open spec fn empty_regs() -> RegsView {
    RegsView { symbolic: Seq::empty(), units: Seq::empty(), models: Seq::empty() }
}

/// Allocating a symbolic identifier at the view level: fails exactly on a
/// duplicate key.
pub open spec fn alloc_sym(st: RegsView, uid: Seq<char>) -> Result<(RegsView, IdView), ErrorView> {
    if crate::yarp_meta::has_uid(st.symbolic, uid) {
        Result::Err(ErrorView::Duplicate { uid })
    } else {
        let kv = IdView::Uid { uid, constant: crate::outside::shouty_snake_of(uid) };
        Result::Ok(
            (
                RegsView {
                    symbolic: st.symbolic.push((uid, crate::outside::shouty_snake_of(uid))),
                    ..st
                },
                kv,
            ),
        )
    }
}

/// What transforming one document entry does: allocate its children bottom
/// up, then its own identifier, then store its entity.
pub open spec fn xform_unit(u: DataUnitView, st: RegsView) -> Result<(RegsView, IdView), ErrorView>
    decreases u, 0int,
{
    match u {
        DataUnitView::Stock { rawid, model } => {
            let kv = IdView::Raw { rawid };
            let uv = UnitView::Stock { id: kv, model };
            Result::Ok(
                (RegsView { units: crate::yarp_meta::upsert_v(st.units, kv, uv), ..st }, kv),
            )
        },
        DataUnitView::Custom { uid, name, model, icon, variant } => {
            let step = match variant {
                DataVariantView::Builder { built } => xform_children(
                    built,
                    built.len() as int,
                    st,
                ),
                _ => Result::Ok((st, Seq::empty())),
            };
            match step {
                Result::Err(e) => Result::Err(e),
                Result::Ok((st1, child_ids)) => match alloc_sym(st1, uid) {
                    Result::Err(e) => Result::Err(e),
                    Result::Ok((st2, kv)) => {
                        let vv = match variant {
                            DataVariantView::Unit => VariantView::Unit,
                            DataVariantView::Building => VariantView::Building,
                            DataVariantView::Builder { .. } => VariantView::Builder {
                                built: child_ids,
                            },
                        };
                        let uv = UnitView::Custom {
                            id: kv,
                            variant: vv,
                            name,
                            model: crate::outside::trim_of(model),
                            icon,
                        };
                        Result::Ok(
                            (
                                RegsView {
                                    units: crate::yarp_meta::upsert_v(st2.units, kv, uv),
                                    ..st2
                                },
                                kv,
                            ),
                        )
                    },
                },
            }
        },
    }
}

/// Transform the first `n` entries of a document list, left to right,
/// collecting their identifiers.
pub open spec fn xform_children(l: Seq<DataUnitView>, n: int, st: RegsView) -> Result<
    (RegsView, Seq<IdView>),
    ErrorView,
>
    decreases l, n,
{
    if n <= 0 || n > l.len() {
        Result::Ok((st, Seq::empty()))
    } else {
        match xform_children(l, n - 1, st) {
            Result::Err(e) => Result::Err(e),
            Result::Ok((st1, ids)) => match xform_unit(l[n - 1], st1) {
                Result::Err(e) => Result::Err(e),
                Result::Ok((st2, id)) => Result::Ok((st2, ids.push(id))),
            },
        }
    }
}

/// Transform one shop document: its sold entries bottom up, then the shop
/// itself.
pub open spec fn xform_shop(sh: DataShopView, st: RegsView) -> Result<RegsView, ErrorView> {
    match xform_children(sh.sold, sh.sold.len() as int, st) {
        Result::Err(e) => Result::Err(e),
        Result::Ok((st1, ids)) => match alloc_sym(st1, sh.uid) {
            Result::Err(e) => Result::Err(e),
            Result::Ok((st2, kv)) => {
                let uv = UnitView::Custom {
                    id: kv,
                    variant: VariantView::Shop { sold: ids, scale: sh.scale },
                    name: sh.name,
                    model: crate::outside::trim_of(sh.model),
                    icon: Seq::empty(),
                };
                Result::Ok(
                    RegsView { units: crate::yarp_meta::upsert_v(st2.units, kv, uv), ..st2 },
                )
            },
        },
    }
}

/// Transform the first `n` shops of a category.
pub open spec fn xform_shops(l: Seq<DataShopView>, n: int, st: RegsView) -> Result<
    RegsView,
    ErrorView,
>
    decreases n,
{
    if n <= 0 || n > l.len() {
        Result::Ok(st)
    } else {
        match xform_shops(l, n - 1, st) {
            Result::Err(e) => Result::Err(e),
            Result::Ok(st1) => xform_shop(l[n - 1], st1),
        }
    }
}

/// Transform the first `n` shop categories.
pub open spec fn xform_cats(
    l: Seq<(Seq<char>, Seq<DataShopView>)>,
    n: int,
    st: RegsView,
) -> Result<RegsView, ErrorView>
    decreases n,
{
    if n <= 0 || n > l.len() {
        Result::Ok(st)
    } else {
        match xform_cats(l, n - 1, st) {
            Result::Err(e) => Result::Err(e),
            Result::Ok(st1) => xform_shops(l[n - 1].1, l[n - 1].1.len() as int, st1),
        }
    }
}

/// Replay the first `n` side-table bindings into the model registry.
pub open spec fn replay_models(side: Seq<(Seq<char>, Seq<char>)>, n: int, st: RegsView) -> RegsView
    decreases n,
{
    if n <= 0 || n > side.len() {
        st
    } else {
        let st1 = replay_models(side, n - 1, st);
        RegsView {
            models: crate::yarp_meta::upsert_v(
                st1.models,
                IdView::Raw { rawid: side[n - 1].0 },
                side[n - 1].1,
            ),
            ..st1
        }
    }
}

/// What deserializing a document yields: every shop of every category, each
/// sold entry allocated bottom up, then the side table replayed.
pub open spec fn deserialize_spec(d: DataView) -> Result<RegsView, ErrorView> {
    match xform_cats(d.shops, d.shops.len() as int, empty_regs()) {
        Result::Err(e) => Result::Err(e),
        Result::Ok(st) => Result::Ok(replay_models(d.stock_models, d.stock_models.len() as int, st)),
    }
}

// ---------------------------------------------------------------------------
// Allocation counting, for the identifier slab's capacity
// ---------------------------------------------------------------------------
/// How many identifiers transforming one entry allocates.
pub open spec fn alloc_count_unit(u: DataUnitView) -> nat
    decreases u, 0int,
{
    match u {
        DataUnitView::Stock { .. } => 1,
        DataUnitView::Custom { variant, .. } => 1 + match variant {
            DataVariantView::Builder { built } => alloc_count_children(built, built.len() as int),
            _ => 0nat,
        },
    }
}

/// How many identifiers transforming the first `n` entries allocates.
pub open spec fn alloc_count_children(l: Seq<DataUnitView>, n: int) -> nat
    decreases l, n,
{
    if n <= 0 || n > l.len() {
        0
    } else {
        alloc_count_children(l, n - 1) + alloc_count_unit(l[n - 1])
    }
}

/// How many identifiers transforming one shop allocates.
pub open spec fn alloc_count_shop(sh: DataShopView) -> nat {
    1 + alloc_count_children(sh.sold, sh.sold.len() as int)
}

/// How many identifiers transforming the first `n` shops allocates.
pub open spec fn alloc_count_shops(l: Seq<DataShopView>, n: int) -> nat
    decreases n,
{
    if n <= 0 || n > l.len() {
        0
    } else {
        alloc_count_shops(l, n - 1) + alloc_count_shop(l[n - 1])
    }
}

/// How many identifiers transforming the first `n` categories allocates.
pub open spec fn alloc_count_cats(l: Seq<(Seq<char>, Seq<DataShopView>)>, n: int) -> nat
    decreases n,
{
    if n <= 0 || n > l.len() {
        0
    } else {
        alloc_count_cats(l, n - 1) + alloc_count_shops(l[n - 1].1, l[n - 1].1.len() as int)
    }
}

/// How many identifiers deserializing a whole document allocates.
pub open spec fn doc_alloc_count(d: DataView) -> nat {
    alloc_count_cats(d.shops, d.shops.len() as int) + d.stock_models.len()
}

/// Counting the first `n` entries never counts more than counting more of
/// them.
proof fn lemma_count_children_mono(l: Seq<DataUnitView>, a: int, b: int)
    requires
        0 <= a <= b <= l.len(),
    ensures
        alloc_count_children(l, a) <= alloc_count_children(l, b),
    decreases b,
{
    if a < b {
        lemma_count_children_mono(l, a, b - 1);
    }
}

/// Counting the first `n` shops never counts more than counting more.
proof fn lemma_count_shops_mono(l: Seq<DataShopView>, a: int, b: int)
    requires
        0 <= a <= b <= l.len(),
    ensures
        alloc_count_shops(l, a) <= alloc_count_shops(l, b),
    decreases b,
{
    if a < b {
        lemma_count_shops_mono(l, a, b - 1);
    }
}

/// Counting the first `n` categories never counts more than counting more.
proof fn lemma_count_cats_mono(l: Seq<(Seq<char>, Seq<DataShopView>)>, a: int, b: int)
    requires
        0 <= a <= b <= l.len(),
    ensures
        alloc_count_cats(l, a) <= alloc_count_cats(l, b),
    decreases b,
{
    if a < b {
        lemma_count_cats_mono(l, a, b - 1);
    }
}

/// A failed prefix fails the whole list transform, with the same error.
proof fn lemma_children_err_mono(l: Seq<DataUnitView>, a: int, b: int, st: RegsView)
    requires
        0 <= a <= b <= l.len(),
        xform_children(l, a, st) is Err,
    ensures
        xform_children(l, b, st) is Err,
        xform_children(l, b, st)->Err_0 == xform_children(l, a, st)->Err_0,
    decreases b,
{
    if a < b {
        lemma_children_err_mono(l, a, b - 1, st);
    }
}

/// A failed prefix fails the whole category transform, with the same error.
proof fn lemma_shops_err_mono(l: Seq<DataShopView>, a: int, b: int, st: RegsView)
    requires
        0 <= a <= b <= l.len(),
        xform_shops(l, a, st) is Err,
    ensures
        xform_shops(l, b, st) is Err,
        xform_shops(l, b, st)->Err_0 == xform_shops(l, a, st)->Err_0,
    decreases b,
{
    if a < b {
        lemma_shops_err_mono(l, a, b - 1, st);
    }
}

/// A failed prefix fails the whole document transform, with the same error.
proof fn lemma_cats_err_mono(l: Seq<(Seq<char>, Seq<DataShopView>)>, a: int, b: int, st: RegsView)
    requires
        0 <= a <= b <= l.len(),
        xform_cats(l, a, st) is Err,
    ensures
        xform_cats(l, b, st) is Err,
        xform_cats(l, b, st)->Err_0 == xform_cats(l, a, st)->Err_0,
    decreases b,
{
    if a < b {
        lemma_cats_err_mono(l, a, b - 1, st);
    }
}

/// Transform one document entry: allocate identifiers and entities bottom
/// up, exactly as `xform_unit` says.
#[verifier::loop_isolation(false)]
pub fn transform_yarp_data_unit(unit: &YarpDataUnit, registries: &mut Registries) -> (r: Result<
    UnitIdentifier,
    YarpError,
>)
    requires
        old(registries).id.wf(),
        old(registries).id.allocations() + alloc_count_unit(unit@) <= crate::yarp_meta::ID_CAPACITY,
    ensures
        final(registries).id.wf(),
        final(registries).id.allocations() <= old(registries).id.allocations() + alloc_count_unit(
            unit@,
        ),
        r is Ok <==> xform_unit(unit@, regs_of(*old(registries))) is Ok,
        r is Ok ==> (regs_of(*final(registries)), r->Ok_0@) == xform_unit(
            unit@,
            regs_of(*old(registries)),
        )->Ok_0,
        r is Err ==> r->Err_0@ == xform_unit(unit@, regs_of(*old(registries)))->Err_0,
    decreases *unit, 0int,
{
    let ghost st0 = regs_of(*old(registries));
    match unit {
        YarpDataUnit::Stock(stock_unit) => {
            let id = registries.id.alloc_raw(stock_unit.rawid.clone());
            let yarp_unit = YarpUnit::new_stock(id.duplicate(), stock_unit.model.clone());
            registries.unit.insert(yarp_unit);
            proof {
                assert((regs_of(*registries), id@) =~~= xform_unit(unit@, st0)->Ok_0);
            }
            Result::Ok(id)
        },
        YarpDataUnit::Custom(custom_unit) => {
            let ghost u_view = unit@;
            let variant: crate::yarp_meta::YarpUnitVariant = match &custom_unit.variant {
                YarpDataUnitVariant::Unit => crate::yarp_meta::YarpUnitVariant::Unit,
                YarpDataUnitVariant::Building => crate::yarp_meta::YarpUnitVariant::Building,
                YarpDataUnitVariant::Builder { built } => {
                    let ghost bl = built@.map_values(|u: YarpDataUnit| data_unit_view(u));
                    proof {
                        lemma_data_units_view(built@, built@.len() as int);
                        assert(bl =~= data_units_view(built@, built@.len() as int));
                        assert(u_view->Custom_variant->Builder_built == bl);
                    }
                    let mut built_ids: Vec<UnitIdentifier> = Vec::new();
                    let mut k: usize = 0;
                    while k < built.len()
                        invariant
                            k <= built@.len(),
                            registries.id.wf(),
                            xform_children(bl, k as int, st0) is Ok,
                            (regs_of(*registries), ids_view(built_ids@)) == xform_children(
                                bl,
                                k as int,
                                st0,
                            )->Ok_0,
                            registries.id.allocations() <= old(registries).id.allocations()
                                + alloc_count_children(bl, k as int),
                        decreases built@.len() - k,
                    {
                        proof {
                            lemma_count_children_mono(bl, k as int + 1, bl.len() as int);
                            assert(bl[k as int] == data_unit_view(built@[k as int]));
                            assert(decreases_to!(*unit => built@[k as int]));
                        }
                        match transform_yarp_data_unit(&built[k], registries) {
                            Result::Ok(id) => {
                                built_ids.push(id);
                                k += 1;
                                proof {
                                    assert(ids_view(built_ids@) =~= xform_children(
                                        bl,
                                        k as int,
                                        st0,
                                    )->Ok_0.1);
                                }
                            },
                            Result::Err(e) => {
                                proof {
                                    lemma_children_err_mono(bl, k as int + 1, bl.len() as int, st0);
                                }
                                return Result::Err(e);
                            },
                        }
                    }
                    crate::yarp_meta::YarpUnitVariant::Builder { built_ids }
                },
            };
            let ghost st1 = regs_of(*registries);
            let id = match registries.id.alloc_symbolic(custom_unit.uid.clone()) {
                Result::Ok(id) => id,
                Result::Err(e) => {
                    return Result::Err(e);
                },
            };
            let yarp_unit = YarpUnit::new_with_variant(
                id.duplicate(),
                custom_unit.name.clone(),
                custom_unit.model.clone(),
                custom_unit.icon.clone(),
                variant,
            );
            registries.unit.insert(yarp_unit);
            proof {
                assert((regs_of(*registries), id@) =~~= xform_unit(unit@, st0)->Ok_0);
            }
            Result::Ok(id)
        },
    }
}

/// Deserialize an interchange document into fresh registries: every shop of
/// every category, children before parents, then the side model table,
/// exactly as `deserialize_spec` says.
#[verifier::loop_isolation(false)]
#[verifier::rlimit(80)]
pub fn transform_yarp_data(data: &YarpData) -> (r: Result<Registries, YarpError>)
    requires
        doc_alloc_count(data@) <= crate::yarp_meta::ID_CAPACITY,
    ensures
        r is Ok <==> deserialize_spec(data@) is Ok,
        r is Ok ==> regs_of(r->Ok_0) == deserialize_spec(data@)->Ok_0 && r->Ok_0.id.wf(),
        r is Err ==> r->Err_0@ == deserialize_spec(data@)->Err_0,
{
    let ghost dv = data@;
    let mut registries = Registries::new();
    proof {
        assert(regs_of(registries) =~= empty_regs());
    }
    let mut c: usize = 0;
    while c < data.shops.len()
        invariant
            c <= data.shops@.len(),
            registries.id.wf(),
            xform_cats(dv.shops, c as int, empty_regs()) is Ok,
            regs_of(registries) == xform_cats(dv.shops, c as int, empty_regs())->Ok_0,
            registries.id.allocations() <= alloc_count_cats(dv.shops, c as int),
        decreases data.shops@.len() - c,
    {
        proof {
            assert(dv.shops[c as int] == (
                data.shops@[c as int].0@,
                data.shops@[c as int].1@.map_values(|s: YarpDataUnitShop| s@),
            ));
        }
        let cat = &data.shops[c];
        let ghost sl = cat.1@.map_values(|s: YarpDataUnitShop| s@);
        let ghost st_cat = regs_of(registries);
        let mut s: usize = 0;
        while s < cat.1.len()
            invariant
                s <= cat.1@.len(),
                registries.id.wf(),
                xform_shops(sl, s as int, st_cat) is Ok,
                regs_of(registries) == xform_shops(sl, s as int, st_cat)->Ok_0,
                registries.id.allocations() <= alloc_count_cats(dv.shops, c as int)
                    + alloc_count_shops(sl, s as int),
            decreases cat.1@.len() - s,
        {
            proof {
                assert(sl[s as int] == cat.1@[s as int]@);
                lemma_count_shops_mono(sl, s as int + 1, sl.len() as int);
                lemma_count_cats_mono(dv.shops, c as int + 1, dv.shops.len() as int);
            }
            let unit_shop = &cat.1[s];
            let ghost sold_l = unit_shop.sold@.map_values(|u: YarpDataUnit| data_unit_view(u));
            let ghost st_shop = regs_of(registries);
            let mut sold_ids: Vec<UnitIdentifier> = Vec::new();
            let mut k: usize = 0;
            while k < unit_shop.sold.len()
                invariant
                    k <= unit_shop.sold@.len(),
                    registries.id.wf(),
                    xform_children(sold_l, k as int, st_shop) is Ok,
                    (regs_of(registries), ids_view(sold_ids@)) == xform_children(
                        sold_l,
                        k as int,
                        st_shop,
                    )->Ok_0,
                    registries.id.allocations() <= alloc_count_cats(dv.shops, c as int)
                        + alloc_count_shops(sl, s as int) + alloc_count_children(
                        sold_l,
                        k as int,
                    ),
                decreases unit_shop.sold@.len() - k,
            {
                proof {
                    assert(sold_l[k as int] == data_unit_view(unit_shop.sold@[k as int]));
                    lemma_count_children_mono(sold_l, k as int + 1, sold_l.len() as int);
                }
                match transform_yarp_data_unit(&unit_shop.sold[k], &mut registries) {
                    Result::Ok(id) => {
                        sold_ids.push(id);
                        k += 1;
                        proof {
                            assert(ids_view(sold_ids@) =~= xform_children(
                                sold_l,
                                k as int,
                                st_shop,
                            )->Ok_0.1);
                        }
                    },
                    Result::Err(e) => {
                        proof {
                            lemma_children_err_mono(sold_l, k as int + 1, sold_l.len() as int, st_shop);
                            lemma_shops_err_mono(sl, s as int + 1, sl.len() as int, st_cat);
                            lemma_cats_err_mono(
                                dv.shops,
                                c as int + 1,
                                dv.shops.len() as int,
                                empty_regs(),
                            );
                        }
                        return Result::Err(e);
                    },
                }
            }
            let id = match registries.id.alloc_symbolic(unit_shop.uid.clone()) {
                Result::Ok(id) => id,
                Result::Err(e) => {
                    proof {
                        lemma_shops_err_mono(sl, s as int + 1, sl.len() as int, st_cat);
                        lemma_cats_err_mono(
                            dv.shops,
                            c as int + 1,
                            dv.shops.len() as int,
                            empty_regs(),
                        );
                    }
                    return Result::Err(e);
                },
            };
            let yarp_unit = crate::yarp_meta::YarpUnit::new_shop(
                id,
                unit_shop.name.clone(),
                unit_shop.model.clone(),
                &sold_ids,
                unit_shop.scale.clone(),
            );
            registries.unit.insert(yarp_unit);
            s += 1;
            proof {
                assert(regs_of(registries) =~= xform_shops(sl, s as int, st_cat)->Ok_0);
            }
        }
        c += 1;
        proof {
            assert(sl.take(sl.len() as int) =~= sl);
            assert(regs_of(registries) =~= xform_cats(dv.shops, c as int, empty_regs())->Ok_0);
        }
    }
    // replay the side model table
    let ghost st_side = regs_of(registries);
    let mut k: usize = 0;
    while k < data.stock_model_registry.len()
        invariant
            k <= data.stock_model_registry@.len(),
            registries.id.wf(),
            regs_of(registries) == replay_models(dv.stock_models, k as int, st_side),
            registries.id.allocations() <= alloc_count_cats(dv.shops, dv.shops.len() as int)
                + k as nat,
        decreases data.stock_model_registry@.len() - k,
    {
        proof {
            assert(dv.stock_models[k as int] == (
                data.stock_model_registry@[k as int].0@,
                data.stock_model_registry@[k as int].1@,
            ));
        }
        let id = registries.id.alloc_raw(data.stock_model_registry[k].0.clone());
        registries.model.insert(&id, data.stock_model_registry[k].1.clone());
        k += 1;
        proof {
            assert(regs_of(registries) =~= replay_models(dv.stock_models, k as int, st_side));
        }
    }
    proof {
        assert(regs_of(registries) =~= deserialize_spec(dv)->Ok_0);
    }
    Result::Ok(registries)
}

} // verus!
