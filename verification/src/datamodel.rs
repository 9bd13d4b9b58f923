//! The relational data model that inference produces: models with scalar and
//! relation fields, index declarations and enums, with their mathematical
//! views.

use crate::names::{default_relation_name, DefaultNames, Name};
use crate::schema::clone_names;
use crate::sequences::lemma_first_position;
use vstd::prelude::*;
use vstd::string::*;

verus! {

/// How many values a field holds.
#[derive(Debug, Clone, Copy, PartialEq, Eq)]
pub enum FieldArity {
    Required,
    Optional,
    List,
}

/// The scalar types of the model language.
#[derive(Debug, Clone, Copy, PartialEq, Eq)]
pub enum ScalarType {
    Int,
    Float,
    Boolean,
    Text,
    DateTime,
}

/// What happens to the holder of a relation field when the related record
/// is deleted.
#[derive(Debug, Clone, Copy, PartialEq, Eq)]
pub enum OnDeleteStrategy {
    Cascade,
    Unset,
}

/// The relation end that a relation field stands for.
#[derive(Debug, PartialEq, Eq)]
pub struct RelationInfo {
    /// The model at the other end.
    pub to: String,
    /// The fields of the other model that the relation references.
    pub to_fields: Vec<String>,
    /// The name that both ends of the relation share.
    pub name: String,
    pub on_delete: OnDeleteStrategy,
}

/// The mathematical view of a `RelationInfo`.
pub struct RelationView {
    pub to: Name,
    pub to_fields: Seq<Name>,
    pub name: Name,
    pub on_delete: OnDeleteStrategy,
}

impl DeepView for RelationInfo {
    type V = RelationView;

    open spec fn deep_view(&self) -> RelationView {
        RelationView {
            to: self.to@,
            to_fields: self.to_fields.deep_view(),
            name: self.name@,
            on_delete: self.on_delete,
        }
    }
}

/// The name of the relation where it has to be written out: where it is
/// not the default name of the relation between the model that holds the
/// field and the model that the field leads to.
pub open spec fn explicit_relation_name(model: Name, info: RelationView) -> Option<Name> {
    if info.name == default_relation_name(model, info.to) {
        None
    } else {
        Some(info.name)
    }
}

impl RelationInfo {
    /// The name of the relation where it has to be written out on a field
    /// of the model `model`.
    pub fn explicit_name(&self, model: &str) -> (r: Option<String>)
        ensures
            r.deep_view() == explicit_relation_name(model@, self.deep_view()),
    {
        if self.name == DefaultNames::relation_name(model, self.to.as_str()) {
            None
        } else {
            Some(self.name.clone())
        }
    }
}

impl Clone for RelationInfo {
    fn clone(&self) -> (r: Self)
        ensures
            r.deep_view() == self.deep_view(),
    {
        RelationInfo {
            to: self.to.clone(),
            to_fields: clone_names(&self.to_fields),
            name: self.name.clone(),
            on_delete: self.on_delete,
        }
    }
}

/// What a field holds.
#[derive(Debug, PartialEq, Eq)]
pub enum FieldType {
    /// A scalar of the model language.
    Base(ScalarType),
    /// A value of the named enum.
    Enum(String),
    /// A physical type, by name, that the model language cannot express.
    Unsupported(String),
    /// Records of another model.
    Relation(RelationInfo),
}

/// The mathematical view of a `FieldType`.
pub enum FieldTypeView {
    Base(ScalarType),
    Enum(Name),
    Unsupported(Name),
    Relation(RelationView),
}

impl DeepView for FieldType {
    type V = FieldTypeView;

    open spec fn deep_view(&self) -> FieldTypeView {
        match self {
            FieldType::Base(t) => FieldTypeView::Base(*t),
            FieldType::Enum(n) => FieldTypeView::Enum(n@),
            FieldType::Unsupported(n) => FieldTypeView::Unsupported(n@),
            FieldType::Relation(r) => FieldTypeView::Relation(r.deep_view()),
        }
    }
}

impl Clone for FieldType {
    fn clone(&self) -> (r: Self)
        ensures
            r.deep_view() == self.deep_view(),
    {
        match self {
            FieldType::Base(t) => FieldType::Base(*t),
            FieldType::Enum(n) => FieldType::Enum(n.clone()),
            FieldType::Unsupported(n) => FieldType::Unsupported(n.clone()),
            FieldType::Relation(r) => FieldType::Relation(r.clone()),
        }
    }
}

/// The default of a scalar field.
#[derive(Debug, PartialEq, Eq)]
pub enum DefaultValue {
    /// The database numbers the records.
    Autoincrement,
    /// The default expression of the column, as the database reports it.
    Expression(String),
}

/// The mathematical view of a `DefaultValue`.
pub enum DefaultView {
    Autoincrement,
    Expression(Name),
}

impl DeepView for DefaultValue {
    type V = DefaultView;

    open spec fn deep_view(&self) -> DefaultView {
        match self {
            DefaultValue::Autoincrement => DefaultView::Autoincrement,
            DefaultValue::Expression(e) => DefaultView::Expression(e@),
        }
    }
}

impl Clone for DefaultValue {
    fn clone(&self) -> (r: Self)
        ensures
            r.deep_view() == self.deep_view(),
    {
        match self {
            DefaultValue::Autoincrement => DefaultValue::Autoincrement,
            DefaultValue::Expression(e) => DefaultValue::Expression(e.clone()),
        }
    }
}

/// A field of a model.
#[derive(Debug, PartialEq, Eq)]
pub struct Field {
    pub name: String,
    pub arity: FieldArity,
    pub field_type: FieldType,
    pub default_value: Option<DefaultValue>,
    pub is_unique: bool,
    pub is_id: bool,
    /// The physical columns behind the field: one for a scalar, the columns
    /// of the foreign key for the relation field that owns it, none for a
    /// field that exists on the model only.
    pub columns: Vec<String>,
    /// Set where the field cannot be expressed in the model language.
    pub is_commented_out: bool,
}

/// The mathematical view of a `Field`.
pub struct FieldView {
    pub name: Name,
    pub arity: FieldArity,
    pub field_type: FieldTypeView,
    pub default_value: Option<DefaultView>,
    pub is_unique: bool,
    pub is_id: bool,
    pub columns: Seq<Name>,
    pub is_commented_out: bool,
}

impl DeepView for Field {
    type V = FieldView;

    open spec fn deep_view(&self) -> FieldView {
        FieldView {
            name: self.name@,
            arity: self.arity,
            field_type: self.field_type.deep_view(),
            default_value: self.default_value.deep_view(),
            is_unique: self.is_unique,
            is_id: self.is_id,
            columns: self.columns.deep_view(),
            is_commented_out: self.is_commented_out,
        }
    }
}

impl Clone for Field {
    fn clone(&self) -> (r: Self)
        ensures
            r.deep_view() == self.deep_view(),
    {
        let default_value = match &self.default_value {
            Some(d) => Some(d.clone()),
            None => None,
        };
        Field {
            name: self.name.clone(),
            arity: self.arity,
            field_type: self.field_type.clone(),
            default_value,
            is_unique: self.is_unique,
            is_id: self.is_id,
            columns: clone_names(&self.columns),
            is_commented_out: self.is_commented_out,
        }
    }
}

impl FieldView {
    /// Whether the field is a relation field.
    pub open spec fn is_relation(self) -> bool {
        self.field_type is Relation
    }

    /// What a relation field holds of its relation.
    pub open spec fn relation(self) -> RelationView
        recommends
            self.is_relation(),
    {
        self.field_type->Relation_0
    }

    /// The field under another name.
    pub open spec fn with_name(self, name: Name) -> FieldView {
        FieldView { name, ..self }
    }
}

/// An index on a model.
#[derive(Debug, Clone, PartialEq, Eq)]
pub struct IndexDefinition {
    /// Set for an index that goes by the name of the relation field on
    /// its columns.
    pub name: Option<String>,
    pub columns: Vec<String>,
    pub unique: bool,
}

/// The mathematical view of an `IndexDefinition`.
pub struct IndexDefinitionView {
    pub name: Option<Name>,
    pub columns: Seq<Name>,
    pub unique: bool,
}

impl DeepView for IndexDefinition {
    type V = IndexDefinitionView;

    open spec fn deep_view(&self) -> IndexDefinitionView {
        IndexDefinitionView {
            name: self.name.deep_view(),
            columns: self.columns.deep_view(),
            unique: self.unique,
        }
    }
}

/// A model: what a table becomes.
#[derive(Debug, Clone, PartialEq, Eq)]
pub struct Model {
    pub name: String,
    /// The fields, in the order of their declaration.
    pub fields: Vec<Field>,
    /// The fields of a composite id; empty where the model has none.
    pub id_fields: Vec<String>,
    pub indices: Vec<IndexDefinition>,
    /// Set where the model cannot be expressed in the model language.
    pub is_commented_out: bool,
}

/// The mathematical view of a `Model`.
pub struct ModelView {
    pub name: Name,
    pub fields: Seq<FieldView>,
    pub id_fields: Seq<Name>,
    pub indices: Seq<IndexDefinitionView>,
    pub is_commented_out: bool,
}

impl DeepView for Model {
    type V = ModelView;

    open spec fn deep_view(&self) -> ModelView {
        ModelView {
            name: self.name@,
            fields: self.fields.deep_view(),
            id_fields: self.id_fields.deep_view(),
            indices: self.indices.deep_view(),
            is_commented_out: self.is_commented_out,
        }
    }
}

/// An enum of the data model.
#[derive(Debug, Clone, PartialEq, Eq)]
pub struct Enum {
    pub name: String,
    pub values: Vec<String>,
}

/// The mathematical view of an `Enum`.
pub struct EnumView {
    pub name: Name,
    pub values: Seq<Name>,
}

impl DeepView for Enum {
    type V = EnumView;

    open spec fn deep_view(&self) -> EnumView {
        EnumView { name: self.name@, values: self.values.deep_view() }
    }
}

/// A data model: the outcome of one inference run.
#[derive(Debug, Clone, PartialEq, Eq)]
pub struct Datamodel {
    pub models: Vec<Model>,
    pub enums: Vec<Enum>,
}

/// The mathematical view of a `Datamodel`.
pub struct DatamodelView {
    pub models: Seq<ModelView>,
    pub enums: Seq<EnumView>,
}

impl DeepView for Datamodel {
    type V = DatamodelView;

    open spec fn deep_view(&self) -> DatamodelView {
        DatamodelView { models: self.models.deep_view(), enums: self.enums.deep_view() }
    }
}

/// The names of a list of fields, in order.
pub open spec fn field_names(fields: Seq<FieldView>) -> Seq<Name> {
    fields.map_values(|f: FieldView| f.name)
}

/// Whether a field of the model `owner` is the other end of the relation
/// `relation` that a field named `exclude` of the model `from` starts. On a
/// self-relation the starting field itself is passed over.
pub open spec fn is_related_field(
    owner: Name,
    g: FieldView,
    from: Name,
    relation: Name,
    exclude: Name,
) -> bool {
    &&& g.is_relation()
    &&& g.relation().to == from
    &&& g.relation().name == relation
    &&& (owner != from || g.name != exclude)
}

/// Whether the model holds the other end of a relation.
pub open spec fn model_has_related_field(
    m: ModelView,
    from: Name,
    relation: Name,
    exclude: Name,
) -> bool {
    exists|i: int|
        0 <= i < m.fields.len() && is_related_field(
            m.name,
            #[trigger] m.fields[i],
            from,
            relation,
            exclude,
        )
}

/// The position of the first model with the given name.
#[verifier::opaque]
pub open spec fn model_position(models: Seq<ModelView>, name: Name) -> Option<int> {
    if exists|i: int| 0 <= i < models.len() && (#[trigger] models[i]).name == name {
        Some(
            choose|i: int|
                0 <= i < models.len() && (#[trigger] models[i]).name == name && forall|j: int|
                    0 <= j < i ==> (#[trigger] models[j]).name != name,
        )
    } else {
        None
    }
}

/// What `model_position` finds, and what it means to find nothing.
pub proof fn lemma_model_position(models: Seq<ModelView>, name: Name)
    ensures
        match model_position(models, name) {
            Some(i) => 0 <= i < models.len() && models[i].name == name && forall|j: int|
                0 <= j < i ==> (#[trigger] models[j]).name != name,
            None => forall|j: int| 0 <= j < models.len() ==> (#[trigger] models[j]).name != name,
        },
{
    reveal(model_position);
    let p = |i: int| models[i].name == name;
    if exists|i: int| 0 <= i < models.len() && (#[trigger] models[i]).name == name {
        let w = choose|i: int| 0 <= i < models.len() && (#[trigger] models[i]).name == name;
        assert(p(w));
        lemma_first_position(models.len() as int, p);
        let f = choose|i: int| 0 <= i < models.len() && #[trigger] p(i) && forall|j: int| 0 <= j < i ==> !#[trigger] p(j);
        assert(models[f].name == name);
        assert forall|j: int| 0 <= j < f implies (#[trigger] models[j]).name != name by {
            assert(!p(j));
        }
    }
}

/// Whether the first model named `to` holds the other end of the relation
/// `relation` that a field named `exclude` of the model `from` starts.
pub open spec fn has_related_field(
    models: Seq<ModelView>,
    from: Name,
    to: Name,
    relation: Name,
    exclude: Name,
) -> bool {
    match model_position(models, to) {
        Some(i) => model_has_related_field(models[i], from, relation, exclude),
        None => false,
    }
}

impl Model {
    /// A model without fields and indices.
    pub fn new(name: String) -> (r: Model)
        ensures
            r.deep_view() == (ModelView {
                name: name@,
                fields: Seq::empty(),
                id_fields: Seq::empty(),
                indices: Seq::empty(),
                is_commented_out: false,
            }),
    {
        let r = Model {
            name,
            fields: Vec::new(),
            id_fields: Vec::new(),
            indices: Vec::new(),
            is_commented_out: false,
        };
        assert(r.deep_view().fields =~= Seq::empty());
        assert(r.deep_view().id_fields =~= Seq::empty());
        assert(r.deep_view().indices =~= Seq::empty());
        r
    }

    /// Whether the model holds the other end of a relation.
    pub fn has_related_field(&self, from: &String, relation: &String, exclude: &String) -> (r:
        bool)
        ensures
            r == model_has_related_field(self.deep_view(), from@, relation@, exclude@),
    {
        let same_model = self.name == *from;
        let mut i: usize = 0;
        while i < self.fields.len()
            invariant
                i <= self.fields.len(),
                same_model == (self.name@ == from@),
                forall|j: int|
                    0 <= j < i ==> !is_related_field(
                        self.name@,
                        #[trigger] self.deep_view().fields[j],
                        from@,
                        relation@,
                        exclude@,
                    ),
            decreases self.fields.len() - i,
        {
            let f = &self.fields[i];
            let hit = match &f.field_type {
                FieldType::Relation(info) => info.to == *from && info.name == *relation && (
                !same_model || f.name != *exclude),
                _ => false,
            };
            assert(hit == is_related_field(
                self.name@,
                self.deep_view().fields[i as int],
                from@,
                relation@,
                exclude@,
            ));
            if hit {
                return true;
            }
            i += 1;
        }
        false
    }
}

impl Datamodel {
    /// The position of the first model with the given name.
    pub fn find_model(&self, name: &String) -> (r: Option<usize>)
        ensures
            match r {
                Some(i) => model_position(self.deep_view().models, name@) == Some(i as int),
                None => model_position(self.deep_view().models, name@).is_none(),
            },
            r.is_some() ==> r.unwrap() < self.models.len() && self.deep_view().models[r.unwrap() as int].name
                == name@,
    {
        find_model(&self.models, name)
    }

    /// Whether the first model named `to` holds the other end of the
    /// relation `relation` that a field named `exclude` of the model `from`
    /// starts.
    pub fn related_field(
        &self,
        from: &String,
        to: &String,
        relation: &String,
        exclude: &String,
    ) -> (r: bool)
        ensures
            r == has_related_field(self.deep_view().models, from@, to@, relation@, exclude@),
    {
        has_related(&self.models, from, to, relation, exclude)
    }
}

/// The position of the first model with the given name.
pub fn find_model(models: &Vec<Model>, name: &String) -> (r: Option<usize>)
    ensures
        match r {
            Some(i) => model_position(models.deep_view(), name@) == Some(i as int),
            None => model_position(models.deep_view(), name@).is_none(),
        },
        r.is_some() ==> r.unwrap() < models.len() && models.deep_view()[r.unwrap() as int].name
            == name@,
{
    let mut i: usize = 0;
    while i < models.len()
        invariant
            i <= models.len(),
            forall|j: int| 0 <= j < i ==> (#[trigger] models.deep_view()[j]).name != name@,
        decreases models.len() - i,
    {
        if models[i].name == *name {
            proof {
                reveal(model_position);
                assert(models.deep_view()[i as int].name == name@);
            }
            return Some(i);
        }
        i += 1;
    }
    proof {
        reveal(model_position);
    }
    None
}

/// Whether the first model named `to` holds the other end of a relation.
pub fn has_related(
    models: &Vec<Model>,
    from: &String,
    to: &String,
    relation: &String,
    exclude: &String,
) -> (r: bool)
    ensures
        r == has_related_field(models.deep_view(), from@, to@, relation@, exclude@),
{
    match find_model(models, to) {
        Some(i) => {
            assert(models.deep_view()[i as int] == models[i as int].deep_view());
            models[i].has_related_field(from, relation, exclude)
        },
        None => false,
    }
}

} // verus!
