use vstd::prelude::*;
use crate::errors::YarpError;
use crate::errors::ErrorView;
use crate::records::Record;
use crate::outside::shouty_snake_of;
use crate::outside::slab_contents;
use crate::outside::slab_new;
use crate::outside::slab_store;
use crate::outside::to_shouty_snake_case;

verus! {

/// Capacity of a pending unit or building group: the consuming shop and
/// builder UI offers this many slots, so an append beyond it is fatal.
pub const GROUP_CAPACITY: usize = 12;

/// Most identifiers one run can allocate: the identifier slab refuses more.
pub const ID_CAPACITY: usize = 0xFFFF_FFFE;

/// An entity identifier: either a custom-content key with its derived
/// constant name, or an opaque literal referencing a built-in content item.
#[derive(Debug, PartialEq, Eq, Hash, Clone)]
pub enum UnitIdentifier {
    UID { uid: String, constant_name: String },
    RawID { rawid: String },
}

/// Mathematical model of a `UnitIdentifier`.
#[verifier::ext_equal]
pub enum IdView {
    Uid { uid: Seq<char>, constant: Seq<char> },
    Raw { rawid: Seq<char> },
}

impl View for UnitIdentifier {
    type V = IdView;

    open spec fn view(&self) -> IdView {
        match self {
            UnitIdentifier::UID { uid, constant_name } => IdView::Uid {
                uid: uid@,
                constant: constant_name@,
            },
            UnitIdentifier::RawID { rawid } => IdView::Raw { rawid: rawid@ },
        }
    }
}

impl UnitIdentifier {
    /// Build a symbolic identifier; the constant name is the upper-snake
    /// form of the key.
    pub(crate) fn new_custom(uid: String) -> (r: UnitIdentifier)
        ensures
            r@ == (IdView::Uid { uid: uid@, constant: shouty_snake_of(uid@) }),
    {
        let constant_name = to_shouty_snake_case(uid.as_str());
        UnitIdentifier::UID { constant_name, uid }
    }

    /// Wrap a built-in content literal.
    pub(crate) fn new_stock(rawid: String) -> (r: UnitIdentifier)
        ensures
            r@ == (IdView::Raw { rawid: rawid@ }),
    {
        UnitIdentifier::RawID { rawid }
    }

    /// The symbolic key.  Only symbolic identifiers have one.
    pub fn uid(&self) -> (r: &str)
        requires
            self@ is Uid,
        ensures
            r@ == self@->Uid_uid,
    {
        match self {
            UnitIdentifier::UID { uid, .. } => uid.as_str(),
            UnitIdentifier::RawID { .. } => unreached(),
        }
    }

    /// The raw literal.  Only raw identifiers have one.
    pub fn rawid(&self) -> (r: &str)
        requires
            self@ is Raw,
        ensures
            r@ == self@->Raw_rawid,
    {
        match self {
            UnitIdentifier::RawID { rawid } => rawid.as_str(),
            UnitIdentifier::UID { .. } => unreached(),
        }
    }

    /// The derived constant name.  Only symbolic identifiers have one.
    pub fn constant_name(&self) -> (r: &str)
        requires
            self@ is Uid,
        ensures
            r@ == self@->Uid_constant,
    {
        match self {
            UnitIdentifier::UID { constant_name, .. } => constant_name.as_str(),
            UnitIdentifier::RawID { .. } => unreached(),
        }
    }

    /// An equal copy of this identifier.
    pub fn duplicate(&self) -> (r: UnitIdentifier)
        ensures
            r@ == self@,
    {
        match self {
            UnitIdentifier::UID { uid, constant_name } => UnitIdentifier::UID {
                uid: uid.clone(),
                constant_name: constant_name.clone(),
            },
            UnitIdentifier::RawID { rawid } => UnitIdentifier::RawID { rawid: rawid.clone() },
        }
    }
}

/// The views of a list of identifiers.
pub open spec fn ids_view(s: Seq<UnitIdentifier>) -> Seq<IdView> {
    s.map_values(|i: UnitIdentifier| i@)
}

/// An equal copy of a list of identifiers.
pub(crate) fn duplicate_ids(v: &Vec<UnitIdentifier>) -> (r: Vec<UnitIdentifier>)
    ensures
        ids_view(r@) == ids_view(v@),
{
    let mut r: Vec<UnitIdentifier> = Vec::new();
    let mut i: usize = 0;
    while i < v.len()
        invariant
            i <= v.len(),
            r@.len() == i,
            forall|j: int| 0 <= j < i ==> r@[j]@ == v@[j]@,
        decreases v.len() - i,
    {
        r.push(v[i].duplicate());
        i += 1;
    }
    proof {
        assert(ids_view(r@) =~= ids_view(v@));
    }
    r
}

// ---------------------------------------------------------------------------
// Entities
// ---------------------------------------------------------------------------
/// The shape of one custom entity.
#[derive(Debug, Clone, PartialEq, Eq)]
pub enum YarpUnitVariant {
    Unit,
    Building,
    UnitShop { sold_ids: Vec<UnitIdentifier>, scale: String },
    Builder { built_ids: Vec<UnitIdentifier> },
}

/// One piece of content: a custom entity with a variant, or a reference to a
/// built-in (stock) item.
#[derive(Debug, Clone, PartialEq, Eq)]
pub enum YarpUnit {
    Custom { id: UnitIdentifier, variant: YarpUnitVariant, name: String, model: String, icon: String },
    Stock { id: UnitIdentifier, model: String },
}

/// Mathematical model of a `YarpUnitVariant`.
#[verifier::ext_equal]
pub enum VariantView {
    Unit,
    Building,
    Shop { sold: Seq<IdView>, scale: Seq<char> },
    Builder { built: Seq<IdView> },
}

/// Mathematical model of a `YarpUnit`.
#[verifier::ext_equal]
pub enum UnitView {
    Custom { id: IdView, variant: VariantView, name: Seq<char>, model: Seq<char>, icon: Seq<char> },
    Stock { id: IdView, model: Seq<char> },
}

impl View for YarpUnitVariant {
    type V = VariantView;

    open spec fn view(&self) -> VariantView {
        match self {
            YarpUnitVariant::Unit => VariantView::Unit,
            YarpUnitVariant::Building => VariantView::Building,
            YarpUnitVariant::UnitShop { sold_ids, scale } => VariantView::Shop {
                sold: ids_view(sold_ids@),
                scale: scale@,
            },
            YarpUnitVariant::Builder { built_ids } => VariantView::Builder {
                built: ids_view(built_ids@),
            },
        }
    }
}

impl View for YarpUnit {
    type V = UnitView;

    open spec fn view(&self) -> UnitView {
        match self {
            YarpUnit::Custom { id, variant, name, model, icon } => UnitView::Custom {
                id: id@,
                variant: variant@,
                name: name@,
                model: model@,
                icon: icon@,
            },
            YarpUnit::Stock { id, model } => UnitView::Stock { id: id@, model: model@ },
        }
    }
}

/// The identifier of a unit, at the view level.
pub open spec fn unit_id_view(u: UnitView) -> IdView {
    match u {
        UnitView::Custom { id, .. } => id,
        UnitView::Stock { id, .. } => id,
    }
}

/// The stored model path of a unit, at the view level.
pub open spec fn unit_model_view(u: UnitView) -> Seq<char> {
    match u {
        UnitView::Custom { model, .. } => model,
        UnitView::Stock { model, .. } => model,
    }
}

impl YarpUnit {
    /// Build a custom unit entity; the model path is trimmed before storage.
    pub(crate) fn new_unit(id: UnitIdentifier, name: String, model: String, icon: String) -> (r:
        YarpUnit)
        ensures
            r@ == (UnitView::Custom {
                id: id@,
                variant: VariantView::Unit,
                name: name@,
                model: crate::outside::trim_of(model@),
                icon: icon@,
            }),
    {
        let model = crate::outside::trim_str(model.as_str());
        YarpUnit::Custom { id, name, icon, model, variant: YarpUnitVariant::Unit }
    }

    /// Build a custom building entity; the model path is trimmed before
    /// storage.
    pub(crate) fn new_building(id: UnitIdentifier, name: String, model: String, icon: String) -> (r:
        YarpUnit)
        ensures
            r@ == (UnitView::Custom {
                id: id@,
                variant: VariantView::Building,
                name: name@,
                model: crate::outside::trim_of(model@),
                icon: icon@,
            }),
    {
        let model = crate::outside::trim_str(model.as_str());
        YarpUnit::Custom { id, name, icon, model, variant: YarpUnitVariant::Building }
    }

    /// Build a shop entity over a snapshot of the sold identifiers; the model
    /// path is trimmed before storage and the icon is empty.
    pub(crate) fn new_shop(
        id: UnitIdentifier,
        name: String,
        model: String,
        sold_ids: &Vec<UnitIdentifier>,
        scale: String,
    ) -> (r: YarpUnit)
        ensures
            r@ == (UnitView::Custom {
                id: id@,
                variant: VariantView::Shop { sold: ids_view(sold_ids@), scale: scale@ },
                name: name@,
                model: crate::outside::trim_of(model@),
                icon: Seq::<char>::empty(),
            }),
    {
        let model = crate::outside::trim_str(model.as_str());
        YarpUnit::Custom {
            id,
            name,
            icon: String::new(),
            model,
            variant: YarpUnitVariant::UnitShop { sold_ids: duplicate_ids(sold_ids), scale },
        }
    }

    /// Build a builder entity over a snapshot of the built identifiers; the
    /// model path is trimmed before storage.
    pub(crate) fn new_builder(
        id: UnitIdentifier,
        name: String,
        model: String,
        icon: String,
        built_ids: &Vec<UnitIdentifier>,
    ) -> (r: YarpUnit)
        ensures
            r@ == (UnitView::Custom {
                id: id@,
                variant: VariantView::Builder { built: ids_view(built_ids@) },
                name: name@,
                model: crate::outside::trim_of(model@),
                icon: icon@,
            }),
    {
        let model = crate::outside::trim_str(model.as_str());
        YarpUnit::Custom {
            id,
            name,
            icon,
            model,
            variant: YarpUnitVariant::Builder { built_ids: duplicate_ids(built_ids) },
        }
    }

    /// Build a custom entity with an already-resolved variant; the model
    /// path is trimmed before storage.
    pub(crate) fn new_with_variant(
        id: UnitIdentifier,
        name: String,
        model: String,
        icon: String,
        variant: YarpUnitVariant,
    ) -> (r: YarpUnit)
        ensures
            r@ == (UnitView::Custom {
                id: id@,
                variant: variant@,
                name: name@,
                model: crate::outside::trim_of(model@),
                icon: icon@,
            }),
    {
        let model = crate::outside::trim_str(model.as_str());
        YarpUnit::Custom { id, name, icon, model, variant }
    }

    /// Build a stock entity; its model path is stored untouched.
    pub(crate) fn new_stock(id: UnitIdentifier, model: String) -> (r: YarpUnit)
        ensures
            r@ == (UnitView::Stock { id: id@, model: model@ }),
    {
        YarpUnit::Stock { id, model }
    }

    /// The entity's identifier.
    pub fn id(&self) -> (r: &UnitIdentifier)
        ensures
            r@ == unit_id_view(self@),
    {
        match self {
            YarpUnit::Custom { id, .. } => id,
            YarpUnit::Stock { id, .. } => id,
        }
    }

    /// The entity's stored model path.
    pub fn model(&self) -> (r: &str)
        ensures
            r@ == unit_model_view(self@),
    {
        match self {
            YarpUnit::Custom { model, .. } => model.as_str(),
            YarpUnit::Stock { model, .. } => model.as_str(),
        }
    }
}

// ---------------------------------------------------------------------------
// Association-list model of the insertion-ordered maps
// ---------------------------------------------------------------------------
/// The index of the first pair whose key is `k`, or `-1` if there is none.
pub open spec fn key_idx_v<V>(s: Seq<(IdView, V)>, k: IdView) -> int
    decreases s.len(),
{
    if s.len() == 0 {
        -1
    } else if s[0].0 == k {
        0
    } else {
        let r = key_idx_v(s.drop_first(), k);
        if r < 0 {
            -1
        } else {
            r + 1
        }
    }
}

/// Insert into an insertion-ordered map: an existing key keeps its place and
/// takes the new value; a fresh pair is appended last.
pub open spec fn upsert_v<V>(s: Seq<(IdView, V)>, k: IdView, v: V) -> Seq<(IdView, V)> {
    let i = key_idx_v(s, k);
    if i >= 0 {
        s.update(i, (s[i].0, v))
    } else {
        s.push((k, v))
    }
}

/// The views of the entity map's pairs.
pub open spec fn lifted_units(s: Seq<(UnitIdentifier, YarpUnit)>) -> Seq<(IdView, UnitView)> {
    s.map_values(|p: (UnitIdentifier, YarpUnit)| (p.0@, p.1@))
}

/// The views of the model map's pairs.
pub open spec fn lifted_models(s: Seq<(UnitIdentifier, String)>) -> Seq<(IdView, Seq<char>)> {
    s.map_values(|p: (UnitIdentifier, String)| (p.0@, p.1@))
}

// ---------------------------------------------------------------------------
// Identifier registry
// ---------------------------------------------------------------------------
/// Allocates and stores entity identifiers for one pipeline run.  Symbolic
/// keys must be globally unique; raw literals may repeat.  The registry only
/// grows.
pub struct IdRegistry {
    slab: idcontain::IdSlab<UnitIdentifier>,
    symbolic: Vec<(String, String)>,
    total: usize,
}

/// The views of a list of key pairs.
pub open spec fn pairs_view(s: Seq<(String, String)>) -> Seq<(Seq<char>, Seq<char>)> {
    s.map_values(|p: (String, String)| (p.0@, p.1@))
}

/// The allocated symbolic keys are unique, and each constant name is the
/// upper-snake form of its key.
pub open spec fn keys_ok(s: Seq<(Seq<char>, Seq<char>)>) -> bool {
    &&& forall|i: int, j: int| 0 <= i < j < s.len() ==> s[i].0 != s[j].0
    &&& forall|i: int| 0 <= i < s.len() ==> s[i].1 == shouty_snake_of(s[i].0)
}

/// Whether a symbolic key is already allocated.
pub open spec fn has_uid(s: Seq<(Seq<char>, Seq<char>)>, uid: Seq<char>) -> bool {
    exists|i: int| 0 <= i < s.len() && s[i].0 == uid
}

impl View for IdRegistry {
    /// The allocated symbolic keys with their constant names, in allocation
    /// order.
    type V = Seq<(Seq<char>, Seq<char>)>;

    closed spec fn view(&self) -> Seq<(Seq<char>, Seq<char>)> {
        self.symbolic@.map_values(|p: (String, String)| (p.0@, p.1@))
    }
}

impl IdRegistry {
    /// How many identifiers have been allocated, symbolic and raw together.
    pub closed spec fn allocations(&self) -> nat {
        self.total as nat
    }

    /// The registry's invariant: the slab holds every allocation, and the
    /// allocated symbolic keys are well formed.
    pub closed spec fn wf(&self) -> bool {
        &&& crate::outside::slab_contents(self.slab).len() == self.total as nat
        &&& keys_ok(self@)
    }

    /// A well-formed registry has well-formed keys.
    pub proof fn lemma_wf_keys(&self)
        requires
            self.wf(),
        ensures
            keys_ok(self@),
    {
    }

    /// An empty registry.
    pub fn new() -> (r: IdRegistry)
        ensures
            r@ == Seq::<(Seq<char>, Seq<char>)>::empty(),
            r.wf(),
            r.allocations() == 0,
    {
        let r = IdRegistry { slab: slab_new(), symbolic: Vec::new(), total: 0 };
        proof {
            assert(r@ =~= Seq::<(Seq<char>, Seq<char>)>::empty());
        }
        r
    }

    /// Allocate a symbolic identifier for `uid`, deriving its constant name.
    /// Fails if and only if the key is already allocated.
    pub fn alloc_symbolic(&mut self, uid: String) -> (r: Result<UnitIdentifier, YarpError>)
        requires
            old(self).wf(),
            old(self).allocations() < ID_CAPACITY,
        ensures
            final(self).wf(),
            final(self).allocations() <= old(self).allocations() + 1,
            has_uid(old(self)@, uid@) ==> r is Err && r->Err_0@ == (ErrorView::Duplicate {
                uid: uid@,
            }) && *final(self) == *old(self),
            !has_uid(old(self)@, uid@) ==> r is Ok && r->Ok_0@ == (IdView::Uid {
                uid: uid@,
                constant: shouty_snake_of(uid@),
            }) && final(self)@ == old(self)@.push((uid@, shouty_snake_of(uid@)))
                && final(self).allocations() == old(self).allocations() + 1,
    {
        let mut i: usize = 0;
        while i < self.symbolic.len()
            invariant
                i <= self.symbolic.len(),
                *self == *old(self),
                self.wf(),
                forall|j: int| 0 <= j < i ==> self@[j].0 != uid@,
            decreases self.symbolic.len() - i,
        {
            if self.symbolic[i].0 == uid {
                assert(self@[i as int].0 == uid@);
                return Result::Err(YarpError::DuplicateIdentifier { uid });
            }
            i += 1;
        }
        assert(!has_uid(self@, uid@));
        let ghost old_view = self@;
        let constant_name = to_shouty_snake_case(uid.as_str());
        self.symbolic.push((uid.clone(), constant_name.clone()));
        let id = UnitIdentifier::UID { uid, constant_name };
        let r = slab_store(&mut self.slab, id);
        self.total = self.total + 1;
        proof {
            assert(self@ =~= old_view.push((r@->Uid_uid, r@->Uid_constant)));
        }
        Result::Ok(r)
    }

    /// The allocated symbolic keys with their constant names, in allocation
    /// order: the forward lookup table.
    pub fn symbolic_pairs(&self) -> (r: Vec<(String, String)>)
        ensures
            pairs_view(r@) == self@,
    {
        let mut r: Vec<(String, String)> = Vec::new();
        let mut i: usize = 0;
        while i < self.symbolic.len()
            invariant
                i <= self.symbolic.len(),
                r@.len() == i,
                forall|j: int| 0 <= j < i ==> r@[j].0@ == self@[j].0 && r@[j].1@ == self@[j].1,
            decreases self.symbolic.len() - i,
        {
            r.push((self.symbolic[i].0.clone(), self.symbolic[i].1.clone()));
            i += 1;
        }
        proof {
            assert(pairs_view(r@) =~= self@);
        }
        r
    }

    /// Allocate a raw identifier.  Raw literals may repeat, so this cannot
    /// fail; the symbolic keys are untouched.
    pub fn alloc_raw(&mut self, rawid: String) -> (r: UnitIdentifier)
        requires
            old(self).wf(),
            old(self).allocations() < ID_CAPACITY,
        ensures
            final(self).wf(),
            r@ == (IdView::Raw { rawid: rawid@ }),
            final(self)@ == old(self)@,
            final(self).allocations() == old(self).allocations() + 1,
    {
        let id = UnitIdentifier::new_stock(rawid);
        let r = slab_store(&mut self.slab, id);
        self.total = self.total + 1;
        r
    }
}

impl Default for IdRegistry {
    /// An empty registry.
    fn default() -> (r: IdRegistry)
        ensures
            r@ == Seq::<(Seq<char>, Seq<char>)>::empty(),
            r.wf(),
            r.allocations() == 0,
    {
        IdRegistry::new()
    }
}

// ---------------------------------------------------------------------------
// Entity and model registries
// ---------------------------------------------------------------------------
/// The insertion-ordered mapping from identifier to entity.  Its order
/// drives emission and placement and is preserved through round-trips.
pub struct UnitRegistry {
    pub registry: indexmap::IndexMap<UnitIdentifier, YarpUnit>,
}

impl View for UnitRegistry {
    /// The stored pairs, in insertion order.
    type V = Seq<(IdView, UnitView)>;

    open spec fn view(&self) -> Seq<(IdView, UnitView)> {
        lifted_units(crate::outside::unit_entries(self.registry))
    }
}

impl UnitRegistry {
    /// An empty registry.
    pub fn new() -> (r: UnitRegistry)
        ensures
            r@ == Seq::<(IdView, UnitView)>::empty(),
    {
        let r = UnitRegistry { registry: crate::outside::umap_new() };
        proof {
            assert(r@ =~= Seq::<(IdView, UnitView)>::empty());
        }
        r
    }

    /// Store an entity under its own identifier.
    pub(crate) fn insert(&mut self, unit: YarpUnit)
        ensures
            final(self)@ == upsert_v(old(self)@, unit_id_view(unit@), unit@),
    {
        let key = unit.id().duplicate();
        let ghost s = crate::outside::unit_entries(self.registry);
        crate::outside::umap_insert(&mut self.registry, key, unit);
        proof {
            lemma_key_idx_v(lifted_units(s), key@);
            let i = key_idx_v(lifted_units(s), key@);
            if i >= 0 {
                assert(self@ =~= upsert_v(lifted_units(s), unit_id_view(unit@), unit@));
            } else {
                assert(self@ =~= upsert_v(lifted_units(s), unit_id_view(unit@), unit@));
            }
        }
    }

    /// The entity stored under an identifier that is known to be present.
    pub fn get(&self, id: &UnitIdentifier) -> (r: &YarpUnit)
        requires
            key_idx_v(self@, id@) >= 0,
        ensures
            r@ == self@[key_idx_v(self@, id@)].1,
    {
        proof {
            lemma_key_idx_v(self@, id@);
        }
        match crate::outside::umap_get(&self.registry, id) {
            Option::Some(v) => v,
            Option::None => unreached(),
        }
    }

    /// The stored pairs, in insertion order.
    pub fn entries(&self) -> (r: Vec<(UnitIdentifier, YarpUnit)>)
        ensures
            lifted_units(r@) == self@,
    {
        crate::outside::umap_entries_vec(&self.registry)
    }
}

impl Default for UnitRegistry {
    /// An empty registry.
    fn default() -> (r: UnitRegistry)
        ensures
            r@ == Seq::<(IdView, UnitView)>::empty(),
    {
        UnitRegistry::new()
    }
}

/// The mapping from identifier to model path, populated independently of
/// entity creation.
pub struct ModelRegistry {
    pub registry: indexmap::IndexMap<UnitIdentifier, String>,
}

impl View for ModelRegistry {
    /// The stored pairs, in insertion order.
    type V = Seq<(IdView, Seq<char>)>;

    open spec fn view(&self) -> Seq<(IdView, Seq<char>)> {
        lifted_models(crate::outside::model_entries(self.registry))
    }
}

impl ModelRegistry {
    /// An empty registry.
    pub fn new() -> (r: ModelRegistry)
        ensures
            r@ == Seq::<(IdView, Seq<char>)>::empty(),
    {
        let r = ModelRegistry { registry: crate::outside::mmap_new() };
        proof {
            assert(r@ =~= Seq::<(IdView, Seq<char>)>::empty());
        }
        r
    }

    /// Bind a model path to an identifier, overwriting any earlier binding.
    pub(crate) fn insert(&mut self, id: &UnitIdentifier, model: String)
        ensures
            final(self)@ == upsert_v(old(self)@, id@, model@),
    {
        let key = id.duplicate();
        let ghost s = crate::outside::model_entries(self.registry);
        crate::outside::mmap_insert(&mut self.registry, key, model);
        proof {
            lemma_key_idx_v(lifted_models(s), key@);
            let i = key_idx_v(lifted_models(s), key@);
            if i >= 0 {
                assert(self@ =~= upsert_v(lifted_models(s), id@, model@));
            } else {
                assert(self@ =~= upsert_v(lifted_models(s), id@, model@));
            }
        }
    }

    /// The stored pairs, in insertion order.
    pub fn entries(&self) -> (r: Vec<(UnitIdentifier, String)>)
        ensures
            lifted_models(r@) == self@,
    {
        crate::outside::mmap_entries_vec(&self.registry)
    }
}

impl Default for ModelRegistry {
    /// An empty registry.
    fn default() -> (r: ModelRegistry)
        ensures
            r@ == Seq::<(IdView, Seq<char>)>::empty(),
    {
        ModelRegistry::new()
    }
}

// ---------------------------------------------------------------------------
// Pipeline context and directive consumption
// ---------------------------------------------------------------------------
/// One event of the placement-grid history: a shop was completed, or a
/// row break was forced.
#[derive(Debug, Clone, Copy, PartialEq, Eq, Structural)]
pub enum LayoutEvent {
    ShopPlaced,
    RowBreak,
}

/// The short-lived state carried between directives: pending groups, the
/// completed shops, the placement history, and the current defaults.
pub struct RecordConsumerContext {
    pub unit_queue: Vec<UnitIdentifier>,
    pub building_queue: Vec<UnitIdentifier>,
    pub shop_queue: Vec<UnitIdentifier>,
    pub layout: Vec<LayoutEvent>,
    pub current_shop_model: String,
    pub current_icon_path: String,
    pub current_scale: String,
}

/// Mathematical model of a `RecordConsumerContext`.
#[verifier::ext_equal]
pub ghost struct CtxView {
    pub unit_queue: Seq<IdView>,
    pub building_queue: Seq<IdView>,
    pub shop_queue: Seq<IdView>,
    pub layout: Seq<LayoutEvent>,
    pub shop_model: Seq<char>,
    pub icon: Seq<char>,
    pub scale: Seq<char>,
}

impl View for RecordConsumerContext {
    type V = CtxView;

    open spec fn view(&self) -> CtxView {
        CtxView {
            unit_queue: ids_view(self.unit_queue@),
            building_queue: ids_view(self.building_queue@),
            shop_queue: ids_view(self.shop_queue@),
            layout: self.layout@,
            shop_model: self.current_shop_model@,
            icon: self.current_icon_path@,
            scale: self.current_scale@,
        }
    }
}

impl RecordConsumerContext {
    /// The context a pipeline run starts from: empty groups and defaults.
    pub fn new() -> (r: RecordConsumerContext)
        ensures
            r@ == initial_ctx(),
    {
        let r = RecordConsumerContext {
            unit_queue: Vec::new(),
            building_queue: Vec::new(),
            shop_queue: Vec::new(),
            layout: Vec::new(),
            current_shop_model: String::new(),
            current_icon_path: String::new(),
            current_scale: String::new(),
        };
        proof {
            assert(r@ =~= initial_ctx());
        }
        r
    }
}

impl Default for RecordConsumerContext {
    /// The context a pipeline run starts from.
    fn default() -> (r: RecordConsumerContext)
        ensures
            r@ == initial_ctx(),
    {
        RecordConsumerContext::new()
    }
}

/// The context at pipeline start: everything empty.
pub open spec fn initial_ctx() -> CtxView {
    CtxView {
        unit_queue: Seq::empty(),
        building_queue: Seq::empty(),
        shop_queue: Seq::empty(),
        layout: Seq::empty(),
        shop_model: Seq::empty(),
        icon: Seq::empty(),
        scale: Seq::empty(),
    }
}

/// How many identifiers consuming one directive allocates when it
/// succeeds: one for each directive that creates an entity, none otherwise.
pub open spec fn alloc_delta(rec: crate::records::RecordView) -> nat {
    match rec {
        crate::records::RecordView::CustomUnit { .. } => 1,
        crate::records::RecordView::CustomBuilding { .. } => 1,
        crate::records::RecordView::CustomBuilder { .. } => 1,
        crate::records::RecordView::UnitShop { .. } => 1,
        crate::records::RecordView::StockUnit { .. } => 1,
        _ => 0,
    }
}

/// The whole mutable state of one pipeline run, at the view level.
#[verifier::ext_equal]
pub ghost struct PipelineView {
    pub ctx: CtxView,
    pub symbolic: Seq<(Seq<char>, Seq<char>)>,
    pub units: Seq<(IdView, UnitView)>,
    pub models: Seq<(IdView, Seq<char>)>,
}

/// The view of a pipeline run's state.
pub open spec fn pipeline_of(
    ctx: RecordConsumerContext,
    idr: IdRegistry,
    ur: UnitRegistry,
    mr: ModelRegistry,
) -> PipelineView {
    PipelineView { ctx: ctx@, symbolic: idr@, units: ur@, models: mr@ }
}

/// The state a pipeline run starts from.
pub open spec fn initial_pipeline() -> PipelineView {
    PipelineView {
        ctx: initial_ctx(),
        symbolic: Seq::empty(),
        units: Seq::empty(),
        models: Seq::empty(),
    }
}

/// What consuming one directive does to the pipeline state, or which fatal
/// error it raises.  This is the single reference for the consumer: the
/// executable `consume_record` is proved to follow it exactly.
pub open spec fn consume_spec(rec: crate::records::RecordView, s: PipelineView) -> Result<
    PipelineView,
    ErrorView,
> {
    match rec {
        crate::records::RecordView::CustomUnit { uid, name, model } => {
            if s.ctx.unit_queue.len() >= GROUP_CAPACITY as int {
                Result::Err(ErrorView::TooLarge { group: s.ctx.unit_queue, uid })
            } else if has_uid(s.symbolic, uid) {
                Result::Err(ErrorView::Duplicate { uid })
            } else {
                let kv = IdView::Uid { uid, constant: shouty_snake_of(uid) };
                let uv = UnitView::Custom {
                    id: kv,
                    variant: VariantView::Unit,
                    name,
                    model: crate::outside::trim_of(model),
                    icon: s.ctx.icon,
                };
                Result::Ok(
                    PipelineView {
                        ctx: CtxView { unit_queue: s.ctx.unit_queue.push(kv), ..s.ctx },
                        symbolic: s.symbolic.push((uid, shouty_snake_of(uid))),
                        units: upsert_v(s.units, kv, uv),
                        models: upsert_v(s.models, kv, crate::outside::trim_of(model)),
                    },
                )
            }
        },
        crate::records::RecordView::CustomBuilding { uid, name, model } => {
            if s.ctx.building_queue.len() >= GROUP_CAPACITY as int {
                Result::Err(ErrorView::TooLarge { group: s.ctx.building_queue, uid })
            } else if has_uid(s.symbolic, uid) {
                Result::Err(ErrorView::Duplicate { uid })
            } else {
                let kv = IdView::Uid { uid, constant: shouty_snake_of(uid) };
                let uv = UnitView::Custom {
                    id: kv,
                    variant: VariantView::Building,
                    name,
                    model: crate::outside::trim_of(model),
                    icon: s.ctx.icon,
                };
                Result::Ok(
                    PipelineView {
                        ctx: CtxView { building_queue: s.ctx.building_queue.push(kv), ..s.ctx },
                        symbolic: s.symbolic.push((uid, shouty_snake_of(uid))),
                        units: upsert_v(s.units, kv, uv),
                        models: upsert_v(s.models, kv, crate::outside::trim_of(model)),
                    },
                )
            }
        },
        crate::records::RecordView::CustomBuilder { uid, name, model } => {
            if s.ctx.unit_queue.len() >= GROUP_CAPACITY as int {
                Result::Err(ErrorView::TooLarge { group: s.ctx.unit_queue, uid })
            } else if has_uid(s.symbolic, uid) {
                Result::Err(ErrorView::Duplicate { uid })
            } else {
                let kv = IdView::Uid { uid, constant: shouty_snake_of(uid) };
                let uv = UnitView::Custom {
                    id: kv,
                    variant: VariantView::Builder { built: s.ctx.building_queue },
                    name,
                    model: crate::outside::trim_of(Seq::empty()),
                    icon: s.ctx.icon,
                };
                Result::Ok(
                    PipelineView {
                        ctx: CtxView {
                            unit_queue: s.ctx.unit_queue.push(kv),
                            building_queue: Seq::empty(),
                            ..s.ctx
                        },
                        symbolic: s.symbolic.push((uid, shouty_snake_of(uid))),
                        units: upsert_v(s.units, kv, uv),
                        models: upsert_v(s.models, kv, crate::outside::trim_of(Seq::empty())),
                    },
                )
            }
        },
        crate::records::RecordView::UnitShop { uid, name, model } => {
            if has_uid(s.symbolic, uid) {
                Result::Err(ErrorView::Duplicate { uid })
            } else {
                let kv = IdView::Uid { uid, constant: shouty_snake_of(uid) };
                let eff_model = match model {
                    Option::Some(m) => m,
                    Option::None => s.ctx.shop_model,
                };
                let uv = UnitView::Custom {
                    id: kv,
                    variant: VariantView::Shop { sold: s.ctx.unit_queue, scale: s.ctx.scale },
                    name,
                    model: crate::outside::trim_of(eff_model),
                    icon: Seq::empty(),
                };
                Result::Ok(
                    PipelineView {
                        ctx: CtxView {
                            unit_queue: Seq::empty(),
                            shop_queue: s.ctx.shop_queue.push(kv),
                            layout: s.ctx.layout.push(LayoutEvent::ShopPlaced),
                            ..s.ctx
                        },
                        symbolic: s.symbolic.push((uid, shouty_snake_of(uid))),
                        units: upsert_v(s.units, kv, uv),
                        models: upsert_v(s.models, kv, crate::outside::trim_of(eff_model)),
                    },
                )
            }
        },
        crate::records::RecordView::StockUnit { id, model } => {
            if s.ctx.unit_queue.len() >= GROUP_CAPACITY as int {
                Result::Err(ErrorView::TooLarge { group: s.ctx.unit_queue, uid: id })
            } else {
                let kv = IdView::Raw { rawid: id };
                let uv = UnitView::Stock { id: kv, model };
                Result::Ok(
                    PipelineView {
                        ctx: CtxView {
                            unit_queue: s.ctx.unit_queue.push(kv),
                            shop_model: model,
                            ..s.ctx
                        },
                        symbolic: s.symbolic,
                        units: upsert_v(s.units, kv, uv),
                        models: upsert_v(s.models, kv, model),
                    },
                )
            }
        },
        crate::records::RecordView::SetShopModel { model } => Result::Ok(
            PipelineView { ctx: CtxView { shop_model: model, ..s.ctx }, ..s },
        ),
        crate::records::RecordView::SetDefaultIcon { icon } => Result::Ok(
            PipelineView { ctx: CtxView { icon, ..s.ctx }, ..s },
        ),
        crate::records::RecordView::StockUnitModel { id, model } => Result::Ok(
            PipelineView { models: upsert_v(s.models, IdView::Raw { rawid: id }, model), ..s },
        ),
        crate::records::RecordView::SetShopScale { scale } => Result::Ok(
            PipelineView { ctx: CtxView { scale, ..s.ctx }, ..s },
        ),
        crate::records::RecordView::ShopNewLine => Result::Ok(
            PipelineView {
                ctx: CtxView { layout: s.ctx.layout.push(LayoutEvent::RowBreak), ..s.ctx },
                ..s
            },
        ),
    }
}

/// The index of the first pair that is in range and has key `k`: basic facts.
pub proof fn lemma_key_idx_v<V>(s: Seq<(IdView, V)>, k: IdView)
    ensures
        key_idx_v(s, k) >= 0 ==> key_idx_v(s, k) < s.len() && s[key_idx_v(s, k)].0 == k,
        key_idx_v(s, k) < 0 ==> forall|i: int| 0 <= i < s.len() ==> s[i].0 != k,
    decreases s.len(),
{
    if s.len() > 0 && s[0].0 != k {
        lemma_key_idx_v(s.drop_first(), k);
        assert forall|i: int| 0 <= i < s.len() && key_idx_v(s, k) < 0 implies s[i].0 != k by {
            if i > 0 {
                assert(s.drop_first()[i - 1] == s[i]);
            }
        }
    }
}

/// Appending a pair moves no present key's first index; a fresh pair's key
/// is found at the end; other absent keys stay absent.
pub proof fn lemma_key_idx_push<V>(s: Seq<(IdView, V)>, p: (IdView, V), k: IdView)
    ensures
        key_idx_v(s, k) >= 0 ==> key_idx_v(s.push(p), k) == key_idx_v(s, k),
        key_idx_v(s, k) < 0 && p.0 == k ==> key_idx_v(s.push(p), k) == s.len(),
        key_idx_v(s, k) < 0 && p.0 != k ==> key_idx_v(s.push(p), k) < 0,
    decreases s.len(),
{
    if s.len() == 0 {
        assert(s.push(p)[0] == p);
        assert(s.push(p).drop_first() =~= Seq::<(IdView, V)>::empty());
        assert(key_idx_v(s.push(p).drop_first(), k) == -1);
        assert(key_idx_v(s.push(p), k) == if p.0 == k {
            0int
        } else {
            -1int
        });
    } else {
        assert(s.push(p)[0] == s[0]);
        assert(s.push(p).drop_first() =~= s.drop_first().push(p));
        lemma_key_idx_push(s.drop_first(), p, k);
        let r = key_idx_v(s.drop_first(), k);
        let rp = key_idx_v(s.drop_first().push(p), k);
        assert(key_idx_v(s, k) == if s[0].0 == k {
            0int
        } else if r < 0 {
            -1int
        } else {
            r + 1
        });
        assert(key_idx_v(s.push(p), k) == if s[0].0 == k {
            0int
        } else if rp < 0 {
            -1int
        } else {
            rp + 1
        });
    }
}

/// Replacing a value in place moves no key's first index.
pub proof fn lemma_key_idx_update<V>(s: Seq<(IdView, V)>, i: int, v: V, k: IdView)
    requires
        0 <= i < s.len(),
    ensures
        key_idx_v(s.update(i, (s[i].0, v)), k) == key_idx_v(s, k),
    decreases s.len(),
{
    let u = s.update(i, (s[i].0, v));
    assert(u.len() == s.len());
    assert(u[0].0 == s[0].0);
    if s[0].0 != k {
        if i == 0 {
            assert(u.drop_first() =~= s.drop_first());
        } else {
            assert(u.drop_first() =~= s.drop_first().update(
                i - 1,
                (s.drop_first()[i - 1].0, v),
            ));
            lemma_key_idx_update(s.drop_first(), i - 1, v, k);
        }
    }
}

/// Fold one directive into the pipeline state: allocate identifiers, build
/// entities, register models, and advance the pending groups and defaults,
/// exactly as `consume_spec` says.  On an error nothing is changed.
pub fn consume_record(
    record: Record,
    consumer_context: &mut RecordConsumerContext,
    id_registry: &mut IdRegistry,
    unit_registry: &mut UnitRegistry,
    model_registry: &mut ModelRegistry,
) -> (r: Result<(), YarpError>)
    requires
        old(id_registry).wf(),
        old(id_registry).allocations() < ID_CAPACITY,
    ensures
        final(id_registry).wf(),
        r is Ok ==> final(id_registry).allocations() == old(id_registry).allocations()
            + alloc_delta(record@),
        r is Err ==> final(id_registry).allocations() == old(id_registry).allocations(),
        ({
            let s0 = pipeline_of(
                *old(consumer_context),
                *old(id_registry),
                *old(unit_registry),
                *old(model_registry),
            );
            &&& (r is Ok <==> consume_spec(record@, s0) is Ok)
            &&& r is Ok ==> pipeline_of(
                *final(consumer_context),
                *final(id_registry),
                *final(unit_registry),
                *final(model_registry),
            ) == consume_spec(record@, s0)->Ok_0
            &&& r is Err ==> r->Err_0@ == consume_spec(record@, s0)->Err_0
                && *final(consumer_context) == *old(consumer_context)
                && *final(id_registry) == *old(id_registry)
                && *final(unit_registry) == *old(unit_registry)
                && *final(model_registry) == *old(model_registry)
        }),
{
    let ghost rv = record@;
    let ghost s0 = pipeline_of(
        *old(consumer_context),
        *old(id_registry),
        *old(unit_registry),
        *old(model_registry),
    );
    match record {
        Record::CustomUnit(unit) => {
            if consumer_context.unit_queue.len() >= GROUP_CAPACITY {
                let e = YarpError::GroupTooLarge {
                    group: duplicate_ids(&consumer_context.unit_queue),
                    uid: unit.uid,
                };
                proof {
                    assert(e@ =~~= consume_spec(rv, s0)->Err_0);
                }
                return Result::Err(e);
            }
            let id = match id_registry.alloc_symbolic(unit.uid) {
                Result::Ok(id) => id,
                Result::Err(e) => {
                    return Result::Err(e);
                },
            };
            let yarp_unit = YarpUnit::new_unit(
                id.duplicate(),
                unit.name,
                unit.model,
                consumer_context.current_icon_path.clone(),
            );
            let m = yarp_unit.model().to_owned();
            model_registry.insert(&id, m);
            consumer_context.unit_queue.push(id);
            unit_registry.insert(yarp_unit);
            proof {
                assert(pipeline_of(
                    *consumer_context,
                    *id_registry,
                    *unit_registry,
                    *model_registry,
                ) =~~= consume_spec(rv, s0)->Ok_0);
            }
            Result::Ok(())
        },
        Record::CustomBuilding(building) => {
            if consumer_context.building_queue.len() >= GROUP_CAPACITY {
                let e = YarpError::GroupTooLarge {
                    group: duplicate_ids(&consumer_context.building_queue),
                    uid: building.uid,
                };
                proof {
                    assert(e@ =~~= consume_spec(rv, s0)->Err_0);
                }
                return Result::Err(e);
            }
            let id = match id_registry.alloc_symbolic(building.uid) {
                Result::Ok(id) => id,
                Result::Err(e) => {
                    return Result::Err(e);
                },
            };
            let yarp_unit = YarpUnit::new_building(
                id.duplicate(),
                building.name,
                building.model,
                consumer_context.current_icon_path.clone(),
            );
            let m = yarp_unit.model().to_owned();
            model_registry.insert(&id, m);
            consumer_context.building_queue.push(id);
            unit_registry.insert(yarp_unit);
            proof {
                assert(pipeline_of(
                    *consumer_context,
                    *id_registry,
                    *unit_registry,
                    *model_registry,
                ) =~~= consume_spec(rv, s0)->Ok_0);
            }
            Result::Ok(())
        },
        Record::CustomBuilder(builder) => {
            if consumer_context.unit_queue.len() >= GROUP_CAPACITY {
                let e = YarpError::GroupTooLarge {
                    group: duplicate_ids(&consumer_context.unit_queue),
                    uid: builder.uid,
                };
                proof {
                    assert(e@ =~~= consume_spec(rv, s0)->Err_0);
                }
                return Result::Err(e);
            }
            let id = match id_registry.alloc_symbolic(builder.uid) {
                Result::Ok(id) => id,
                Result::Err(e) => {
                    return Result::Err(e);
                },
            };
            let yarp_unit = YarpUnit::new_builder(
                id.duplicate(),
                builder.name,
                String::new(),
                consumer_context.current_icon_path.clone(),
                &consumer_context.building_queue,
            );
            consumer_context.building_queue = Vec::new();
            let m = yarp_unit.model().to_owned();
            model_registry.insert(&id, m);
            consumer_context.unit_queue.push(id);
            unit_registry.insert(yarp_unit);
            proof {
                assert(pipeline_of(
                    *consumer_context,
                    *id_registry,
                    *unit_registry,
                    *model_registry,
                ) =~~= consume_spec(rv, s0)->Ok_0);
            }
            Result::Ok(())
        },
        Record::UnitShop(shop) => {
            let id = match id_registry.alloc_symbolic(shop.uid) {
                Result::Ok(id) => id,
                Result::Err(e) => {
                    return Result::Err(e);
                },
            };
            let model = match shop.model {
                Option::Some(m) => m,
                Option::None => consumer_context.current_shop_model.clone(),
            };
            let yarp_unit = YarpUnit::new_shop(
                id.duplicate(),
                shop.name,
                model,
                &consumer_context.unit_queue,
                consumer_context.current_scale.clone(),
            );
            let m = yarp_unit.model().to_owned();
            model_registry.insert(&id, m);
            consumer_context.unit_queue = Vec::new();
            unit_registry.insert(yarp_unit);
            consumer_context.shop_queue.push(id);
            consumer_context.layout.push(LayoutEvent::ShopPlaced);
            proof {
                assert(pipeline_of(
                    *consumer_context,
                    *id_registry,
                    *unit_registry,
                    *model_registry,
                ) =~~= consume_spec(rv, s0)->Ok_0);
            }
            Result::Ok(())
        },
        Record::StockUnit(unit) => {
            if consumer_context.unit_queue.len() >= GROUP_CAPACITY {
                let e = YarpError::GroupTooLarge {
                    group: duplicate_ids(&consumer_context.unit_queue),
                    uid: unit.id,
                };
                proof {
                    assert(e@ =~~= consume_spec(rv, s0)->Err_0);
                }
                return Result::Err(e);
            }
            let id = id_registry.alloc_raw(unit.id);
            let yarp_unit = YarpUnit::new_stock(id.duplicate(), unit.model.clone());
            let m = yarp_unit.model().to_owned();
            model_registry.insert(&id, m);
            consumer_context.current_shop_model = unit.model;
            consumer_context.unit_queue.push(id);
            unit_registry.insert(yarp_unit);
            proof {
                assert(pipeline_of(
                    *consumer_context,
                    *id_registry,
                    *unit_registry,
                    *model_registry,
                ) =~~= consume_spec(rv, s0)->Ok_0);
            }
            Result::Ok(())
        },
        Record::SetShopModel(model) => {
            consumer_context.current_shop_model = model.model;
            proof {
                assert(pipeline_of(
                    *consumer_context,
                    *id_registry,
                    *unit_registry,
                    *model_registry,
                ) =~~= consume_spec(rv, s0)->Ok_0);
            }
            Result::Ok(())
        },
        Record::SetDefaultIcon(icon) => {
            consumer_context.current_icon_path = icon.icon;
            proof {
                assert(pipeline_of(
                    *consumer_context,
                    *id_registry,
                    *unit_registry,
                    *model_registry,
                ) =~~= consume_spec(rv, s0)->Ok_0);
            }
            Result::Ok(())
        },
        Record::StockUnitModel(model) => {
            let id = UnitIdentifier::new_stock(model.id);
            model_registry.insert(&id, model.model);
            proof {
                assert(pipeline_of(
                    *consumer_context,
                    *id_registry,
                    *unit_registry,
                    *model_registry,
                ) =~~= consume_spec(rv, s0)->Ok_0);
            }
            Result::Ok(())
        },
        Record::SetShopScale(scale) => {
            consumer_context.current_scale = scale.scale;
            proof {
                assert(pipeline_of(
                    *consumer_context,
                    *id_registry,
                    *unit_registry,
                    *model_registry,
                ) =~~= consume_spec(rv, s0)->Ok_0);
            }
            Result::Ok(())
        },
        Record::ShopNewLine => {
            consumer_context.layout.push(LayoutEvent::RowBreak);
            proof {
                assert(pipeline_of(
                    *consumer_context,
                    *id_registry,
                    *unit_registry,
                    *model_registry,
                ) =~~= consume_spec(rv, s0)->Ok_0);
            }
            Result::Ok(())
        },
    }
}

/// The three registries of one pipeline run.
pub struct Registries {
    pub id: IdRegistry,
    pub unit: UnitRegistry,
    pub model: ModelRegistry,
}

impl Registries {
    /// Empty registries.
    pub fn new() -> (r: Registries)
        ensures
            r.id@ == Seq::<(Seq<char>, Seq<char>)>::empty(),
            r.id.wf(),
            r.id.allocations() == 0,
            r.unit@ == Seq::<(IdView, UnitView)>::empty(),
            r.model@ == Seq::<(IdView, Seq<char>)>::empty(),
    {
        Registries { id: IdRegistry::new(), unit: UnitRegistry::new(), model: ModelRegistry::new() }
    }
}

impl Default for Registries {
    /// Empty registries.
    fn default() -> (r: Registries)
        ensures
            r.id@ == Seq::<(Seq<char>, Seq<char>)>::empty(),
            r.id.wf(),
            r.id.allocations() == 0,
            r.unit@ == Seq::<(IdView, UnitView)>::empty(),
            r.model@ == Seq::<(IdView, Seq<char>)>::empty(),
    {
        Registries::new()
    }
}

} // verus!
