use vstd::prelude::*;
use crate::errors::ErrorView;
use crate::errors::YarpError;

verus! {

// ---------------------------------------------------------------------------
// Typed directives
// ---------------------------------------------------------------------------
/// Declares one custom unit: key, display name, model path.
#[derive(Debug, Eq, PartialEq)]
pub struct CustomUnitRecord {
    pub uid: String,
    pub name: String,
    pub model: String,
}

/// References one built-in unit by its raw literal and binds a model to it.
#[derive(Debug, Eq, PartialEq)]
pub struct StockUnitRecord {
    pub id: String,
    pub model: String,
}

/// Declares one custom building: key, display name, model path.
#[derive(Debug, Eq, PartialEq)]
pub struct CustomBuildingRecord {
    pub uid: String,
    pub name: String,
    pub model: String,
}

/// Closes the pending unit group into a shop; the model may be left to the
/// current default.
#[derive(Debug, Eq, PartialEq)]
pub struct UnitShopRecord {
    pub uid: String,
    pub name: String,
    pub model: Option<String>,
}

/// Closes the pending building group into a builder; the model may be left
/// to the current default.
#[derive(Debug, Eq, PartialEq)]
pub struct CustomBuilderRecord {
    pub uid: String,
    pub name: String,
    pub model: Option<String>,
}

/// Sets the current default shop model.
#[derive(Debug, Eq, PartialEq)]
pub struct SetShopModelRecord {
    pub model: String,
}

/// Binds a model to a raw literal in the model registry, creating no entity.
#[derive(Debug, Eq, PartialEq)]
pub struct StockUnitModelRecord {
    pub id: String,
    pub model: String,
}

/// Sets the current default icon path.
#[derive(Debug, Eq, PartialEq)]
pub struct SetDefaultIconRecord {
    pub icon: String,
}

/// Sets the current default shop scale.  The value is carried as the raw
/// numeric text of the field.
#[derive(Debug, Eq, PartialEq)]
pub struct SetShopScaleRecord {
    pub scale: String,
}

/// One classified directive.
#[derive(Debug, Eq, PartialEq)]
pub enum Record {
    CustomUnit(CustomUnitRecord),
    StockUnit(StockUnitRecord),
    CustomBuilding(CustomBuildingRecord),
    UnitShop(UnitShopRecord),
    CustomBuilder(CustomBuilderRecord),
    SetShopModel(SetShopModelRecord),
    StockUnitModel(StockUnitModelRecord),
    SetDefaultIcon(SetDefaultIconRecord),
    SetShopScale(SetShopScaleRecord),
    ShopNewLine,
}

// ---------------------------------------------------------------------------
// Mathematical model
// ---------------------------------------------------------------------------
/// Mathematical model of a `Record`.
#[verifier::ext_equal]
pub enum RecordView {
    CustomUnit { uid: Seq<char>, name: Seq<char>, model: Seq<char> },
    StockUnit { id: Seq<char>, model: Seq<char> },
    CustomBuilding { uid: Seq<char>, name: Seq<char>, model: Seq<char> },
    UnitShop { uid: Seq<char>, name: Seq<char>, model: Option<Seq<char>> },
    CustomBuilder { uid: Seq<char>, name: Seq<char>, model: Option<Seq<char>> },
    SetShopModel { model: Seq<char> },
    StockUnitModel { id: Seq<char>, model: Seq<char> },
    SetDefaultIcon { icon: Seq<char> },
    SetShopScale { scale: Seq<char> },
    ShopNewLine,
}

/// The view of an optional field.
pub open spec fn opt_view(o: Option<String>) -> Option<Seq<char>> {
    match o {
        Option::Some(s) => Option::Some(s@),
        Option::None => Option::None,
    }
}

impl View for Record {
    type V = RecordView;

    open spec fn view(&self) -> RecordView {
        match self {
            Record::CustomUnit(r) => RecordView::CustomUnit {
                uid: r.uid@,
                name: r.name@,
                model: r.model@,
            },
            Record::StockUnit(r) => RecordView::StockUnit { id: r.id@, model: r.model@ },
            Record::CustomBuilding(r) => RecordView::CustomBuilding {
                uid: r.uid@,
                name: r.name@,
                model: r.model@,
            },
            Record::UnitShop(r) => RecordView::UnitShop {
                uid: r.uid@,
                name: r.name@,
                model: opt_view(r.model),
            },
            Record::CustomBuilder(r) => RecordView::CustomBuilder {
                uid: r.uid@,
                name: r.name@,
                model: opt_view(r.model),
            },
            Record::SetShopModel(r) => RecordView::SetShopModel { model: r.model@ },
            Record::StockUnitModel(r) => RecordView::StockUnitModel { id: r.id@, model: r.model@ },
            Record::SetDefaultIcon(r) => RecordView::SetDefaultIcon { icon: r.icon@ },
            Record::SetShopScale(r) => RecordView::SetShopScale { scale: r.scale@ },
            Record::ShopNewLine => RecordView::ShopNewLine,
        }
    }
}

/// The views of a row's fields.
pub open spec fn fields_view(fields: Seq<String>) -> Seq<Seq<char>> {
    fields.map_values(|s: String| s@)
}

/// What classifying a row yields: a directive, a silent skip for an
/// unrecognized tag, or a malformed-record error when a required field of a
/// recognized tag is absent.
pub open spec fn classify_spec(fs: Seq<Seq<char>>) -> Result<Option<RecordView>, ErrorView> {
    if fs.len() == 0 {
        Result::Ok(Option::None)
    } else if fs[0] == "CustomUnit"@ {
        if fs.len() >= 4 {
            Result::Ok(
                Option::Some(RecordView::CustomUnit { uid: fs[1], name: fs[2], model: fs[3] }),
            )
        } else {
            Result::Err(ErrorView::Malformed { fields: fs })
        }
    } else if fs[0] == "StockUnit"@ {
        if fs.len() >= 3 {
            Result::Ok(Option::Some(RecordView::StockUnit { id: fs[1], model: fs[2] }))
        } else {
            Result::Err(ErrorView::Malformed { fields: fs })
        }
    } else if fs[0] == "CustomBuilding"@ {
        if fs.len() >= 4 {
            Result::Ok(
                Option::Some(RecordView::CustomBuilding { uid: fs[1], name: fs[2], model: fs[3] }),
            )
        } else {
            Result::Err(ErrorView::Malformed { fields: fs })
        }
    } else if fs[0] == "UnitShop"@ {
        if fs.len() >= 3 {
            Result::Ok(
                Option::Some(
                    RecordView::UnitShop {
                        uid: fs[1],
                        name: fs[2],
                        model: if fs.len() >= 4 {
                            Option::Some(fs[3])
                        } else {
                            Option::None
                        },
                    },
                ),
            )
        } else {
            Result::Err(ErrorView::Malformed { fields: fs })
        }
    } else if fs[0] == "CustomBuilder"@ {
        if fs.len() >= 3 {
            Result::Ok(
                Option::Some(
                    RecordView::CustomBuilder {
                        uid: fs[1],
                        name: fs[2],
                        model: if fs.len() >= 4 {
                            Option::Some(fs[3])
                        } else {
                            Option::None
                        },
                    },
                ),
            )
        } else {
            Result::Err(ErrorView::Malformed { fields: fs })
        }
    } else if fs[0] == "SetShopModel"@ {
        if fs.len() >= 2 {
            Result::Ok(Option::Some(RecordView::SetShopModel { model: fs[1] }))
        } else {
            Result::Err(ErrorView::Malformed { fields: fs })
        }
    } else if fs[0] == "StockUnitModel"@ {
        if fs.len() >= 3 {
            Result::Ok(Option::Some(RecordView::StockUnitModel { id: fs[1], model: fs[2] }))
        } else {
            Result::Err(ErrorView::Malformed { fields: fs })
        }
    } else if fs[0] == "SetDefaultIcon"@ {
        if fs.len() >= 2 {
            Result::Ok(Option::Some(RecordView::SetDefaultIcon { icon: fs[1] }))
        } else {
            Result::Err(ErrorView::Malformed { fields: fs })
        }
    } else if fs[0] == "SetShopScale"@ {
        if fs.len() >= 2 {
            Result::Ok(Option::Some(RecordView::SetShopScale { scale: fs[1] }))
        } else {
            Result::Err(ErrorView::Malformed { fields: fs })
        }
    } else if fs[0] == "ShopNewLine"@ {
        Result::Ok(Option::Some(RecordView::ShopNewLine))
    } else {
        Result::Ok(Option::None)
    }
}

/// The view of an optional classified record.
pub open spec fn opt_record_view(o: Option<Record>) -> Option<RecordView> {
    match o {
        Option::Some(r) => Option::Some(r@),
        Option::None => Option::None,
    }
}

// ---------------------------------------------------------------------------
// Executable classifier
// ---------------------------------------------------------------------------
/// Whether two string slices hold the same characters.
fn str_eq(a: &str, b: &str) -> (r: bool)
    ensures
        r == (a@ == b@),
{
    let x = a.to_owned();
    let y = b.to_owned();
    x == y
}

/// An equal copy of a row's fields.
fn clone_fields(fields: &Vec<String>) -> (r: Vec<String>)
    ensures
        fields_view(r@) == fields_view(fields@),
{
    let mut r: Vec<String> = Vec::new();
    let mut i: usize = 0;
    while i < fields.len()
        invariant
            i <= fields.len(),
            r@.len() == i,
            forall|j: int| 0 <= j < i ==> r@[j]@ == fields@[j]@,
        decreases fields.len() - i,
    {
        r.push(fields[i].clone());
        i += 1;
    }
    proof {
        assert(fields_view(r@) =~= fields_view(fields@));
    }
    r
}

/// A malformed-record error carrying the offending row.
fn malformed(fields: &Vec<String>) -> (r: YarpError)
    ensures
        r@ == (ErrorView::Malformed { fields: fields_view(fields@) }),
{
    YarpError::MalformedRecord { fields: clone_fields(fields) }
}

impl CustomUnitRecord {
    /// Extract the positional fields of a `CustomUnit` directive.
    pub fn from_record(fields: &Vec<String>) -> (r: Result<CustomUnitRecord, YarpError>)
        ensures
            fields_view(fields@).len() >= 4 ==> r is Ok && r->Ok_0.uid@ == fields@[1]@
                && r->Ok_0.name@ == fields@[2]@ && r->Ok_0.model@ == fields@[3]@,
            fields_view(fields@).len() < 4 ==> r is Err && r->Err_0@ == (ErrorView::Malformed {
                fields: fields_view(fields@),
            }),
    {
        if fields.len() >= 4 {
            Result::Ok(
                CustomUnitRecord {
                    uid: fields[1].clone(),
                    name: fields[2].clone(),
                    model: fields[3].clone(),
                },
            )
        } else {
            Result::Err(malformed(fields))
        }
    }
}

impl StockUnitRecord {
    /// Extract the positional fields of a `StockUnit` directive.
    pub fn from_record(fields: &Vec<String>) -> (r: Result<StockUnitRecord, YarpError>)
        ensures
            fields_view(fields@).len() >= 3 ==> r is Ok && r->Ok_0.id@ == fields@[1]@
                && r->Ok_0.model@ == fields@[2]@,
            fields_view(fields@).len() < 3 ==> r is Err && r->Err_0@ == (ErrorView::Malformed {
                fields: fields_view(fields@),
            }),
    {
        if fields.len() >= 3 {
            Result::Ok(StockUnitRecord { id: fields[1].clone(), model: fields[2].clone() })
        } else {
            Result::Err(malformed(fields))
        }
    }
}

impl CustomBuildingRecord {
    /// Extract the positional fields of a `CustomBuilding` directive.
    pub fn from_record(fields: &Vec<String>) -> (r: Result<CustomBuildingRecord, YarpError>)
        ensures
            fields_view(fields@).len() >= 4 ==> r is Ok && r->Ok_0.uid@ == fields@[1]@
                && r->Ok_0.name@ == fields@[2]@ && r->Ok_0.model@ == fields@[3]@,
            fields_view(fields@).len() < 4 ==> r is Err && r->Err_0@ == (ErrorView::Malformed {
                fields: fields_view(fields@),
            }),
    {
        if fields.len() >= 4 {
            Result::Ok(
                CustomBuildingRecord {
                    uid: fields[1].clone(),
                    name: fields[2].clone(),
                    model: fields[3].clone(),
                },
            )
        } else {
            Result::Err(malformed(fields))
        }
    }
}

impl UnitShopRecord {
    /// Extract the positional fields of a `UnitShop` directive; the model is
    /// optional.
    pub fn from_record(fields: &Vec<String>) -> (r: Result<UnitShopRecord, YarpError>)
        ensures
            fields_view(fields@).len() >= 3 ==> r is Ok && r->Ok_0.uid@ == fields@[1]@
                && r->Ok_0.name@ == fields@[2]@ && opt_view(r->Ok_0.model) == (if fields@.len()
                >= 4 {
                Option::Some(fields@[3]@)
            } else {
                Option::<Seq<char>>::None
            }),
            fields_view(fields@).len() < 3 ==> r is Err && r->Err_0@ == (ErrorView::Malformed {
                fields: fields_view(fields@),
            }),
    {
        if fields.len() >= 3 {
            let model: Option<String> = if fields.len() >= 4 {
                Option::Some(fields[3].clone())
            } else {
                Option::None
            };
            Result::Ok(UnitShopRecord { uid: fields[1].clone(), name: fields[2].clone(), model })
        } else {
            Result::Err(malformed(fields))
        }
    }
}

impl CustomBuilderRecord {
    /// Extract the positional fields of a `CustomBuilder` directive; the
    /// model is optional.
    pub fn from_record(fields: &Vec<String>) -> (r: Result<CustomBuilderRecord, YarpError>)
        ensures
            fields_view(fields@).len() >= 3 ==> r is Ok && r->Ok_0.uid@ == fields@[1]@
                && r->Ok_0.name@ == fields@[2]@ && opt_view(r->Ok_0.model) == (if fields@.len()
                >= 4 {
                Option::Some(fields@[3]@)
            } else {
                Option::<Seq<char>>::None
            }),
            fields_view(fields@).len() < 3 ==> r is Err && r->Err_0@ == (ErrorView::Malformed {
                fields: fields_view(fields@),
            }),
    {
        if fields.len() >= 3 {
            let model: Option<String> = if fields.len() >= 4 {
                Option::Some(fields[3].clone())
            } else {
                Option::None
            };
            Result::Ok(
                CustomBuilderRecord { uid: fields[1].clone(), name: fields[2].clone(), model },
            )
        } else {
            Result::Err(malformed(fields))
        }
    }
}

impl SetShopModelRecord {
    /// Extract the positional field of a `SetShopModel` directive.
    pub fn from_record(fields: &Vec<String>) -> (r: Result<SetShopModelRecord, YarpError>)
        ensures
            fields_view(fields@).len() >= 2 ==> r is Ok && r->Ok_0.model@ == fields@[1]@,
            fields_view(fields@).len() < 2 ==> r is Err && r->Err_0@ == (ErrorView::Malformed {
                fields: fields_view(fields@),
            }),
    {
        if fields.len() >= 2 {
            Result::Ok(SetShopModelRecord { model: fields[1].clone() })
        } else {
            Result::Err(malformed(fields))
        }
    }
}

impl StockUnitModelRecord {
    /// Extract the positional fields of a `StockUnitModel` directive.
    pub fn from_record(fields: &Vec<String>) -> (r: Result<StockUnitModelRecord, YarpError>)
        ensures
            fields_view(fields@).len() >= 3 ==> r is Ok && r->Ok_0.id@ == fields@[1]@
                && r->Ok_0.model@ == fields@[2]@,
            fields_view(fields@).len() < 3 ==> r is Err && r->Err_0@ == (ErrorView::Malformed {
                fields: fields_view(fields@),
            }),
    {
        if fields.len() >= 3 {
            Result::Ok(StockUnitModelRecord { id: fields[1].clone(), model: fields[2].clone() })
        } else {
            Result::Err(malformed(fields))
        }
    }
}

impl SetDefaultIconRecord {
    /// Extract the positional field of a `SetDefaultIcon` directive.
    pub fn from_record(fields: &Vec<String>) -> (r: Result<SetDefaultIconRecord, YarpError>)
        ensures
            fields_view(fields@).len() >= 2 ==> r is Ok && r->Ok_0.icon@ == fields@[1]@,
            fields_view(fields@).len() < 2 ==> r is Err && r->Err_0@ == (ErrorView::Malformed {
                fields: fields_view(fields@),
            }),
    {
        if fields.len() >= 2 {
            Result::Ok(SetDefaultIconRecord { icon: fields[1].clone() })
        } else {
            Result::Err(malformed(fields))
        }
    }
}

impl SetShopScaleRecord {
    /// Extract the positional field of a `SetShopScale` directive.
    pub fn from_record(fields: &Vec<String>) -> (r: Result<SetShopScaleRecord, YarpError>)
        ensures
            fields_view(fields@).len() >= 2 ==> r is Ok && r->Ok_0.scale@ == fields@[1]@,
            fields_view(fields@).len() < 2 ==> r is Err && r->Err_0@ == (ErrorView::Malformed {
                fields: fields_view(fields@),
            }),
    {
        if fields.len() >= 2 {
            Result::Ok(SetShopScaleRecord { scale: fields[1].clone() })
        } else {
            Result::Err(malformed(fields))
        }
    }
}

impl Record {
    /// Classify one row of string fields.  Field 0 is the directive tag;
    /// a recognized tag with all required fields yields a directive, an
    /// unrecognized tag is silently skipped, and a recognized tag with a
    /// required field absent is a malformed record.
    pub fn from_record(fields: &Vec<String>) -> (r: Result<Option<Record>, YarpError>)
        ensures
            r is Ok <==> classify_spec(fields_view(fields@)) is Ok,
            r is Ok ==> opt_record_view(r->Ok_0) == classify_spec(fields_view(fields@))->Ok_0,
            r is Err ==> r->Err_0@ == classify_spec(fields_view(fields@))->Err_0,
    {
        if fields.len() == 0 {
            return Result::Ok(Option::None);
        }
        let tag = fields[0].as_str();
        if str_eq(tag, "CustomUnit") {
            match CustomUnitRecord::from_record(fields) {
                Result::Ok(rec) => Result::Ok(Option::Some(Record::CustomUnit(rec))),
                Result::Err(e) => Result::Err(e),
            }
        } else if str_eq(tag, "StockUnit") {
            match StockUnitRecord::from_record(fields) {
                Result::Ok(rec) => Result::Ok(Option::Some(Record::StockUnit(rec))),
                Result::Err(e) => Result::Err(e),
            }
        } else if str_eq(tag, "CustomBuilding") {
            match CustomBuildingRecord::from_record(fields) {
                Result::Ok(rec) => Result::Ok(Option::Some(Record::CustomBuilding(rec))),
                Result::Err(e) => Result::Err(e),
            }
        } else if str_eq(tag, "UnitShop") {
            match UnitShopRecord::from_record(fields) {
                Result::Ok(rec) => Result::Ok(Option::Some(Record::UnitShop(rec))),
                Result::Err(e) => Result::Err(e),
            }
        } else if str_eq(tag, "CustomBuilder") {
            match CustomBuilderRecord::from_record(fields) {
                Result::Ok(rec) => Result::Ok(Option::Some(Record::CustomBuilder(rec))),
                Result::Err(e) => Result::Err(e),
            }
        } else if str_eq(tag, "SetShopModel") {
            match SetShopModelRecord::from_record(fields) {
                Result::Ok(rec) => Result::Ok(Option::Some(Record::SetShopModel(rec))),
                Result::Err(e) => Result::Err(e),
            }
        } else if str_eq(tag, "StockUnitModel") {
            match StockUnitModelRecord::from_record(fields) {
                Result::Ok(rec) => Result::Ok(Option::Some(Record::StockUnitModel(rec))),
                Result::Err(e) => Result::Err(e),
            }
        } else if str_eq(tag, "SetDefaultIcon") {
            match SetDefaultIconRecord::from_record(fields) {
                Result::Ok(rec) => Result::Ok(Option::Some(Record::SetDefaultIcon(rec))),
                Result::Err(e) => Result::Err(e),
            }
        } else if str_eq(tag, "SetShopScale") {
            match SetShopScaleRecord::from_record(fields) {
                Result::Ok(rec) => Result::Ok(Option::Some(Record::SetShopScale(rec))),
                Result::Err(e) => Result::Err(e),
            }
        } else if str_eq(tag, "ShopNewLine") {
            Result::Ok(Option::Some(Record::ShopNewLine))
        } else {
            Result::Ok(Option::None)
        }
    }
}

} // verus!
