//! The schema model: an immutable description of a type's shape.

use vstd::prelude::*;

verus! {

/// The shape of a type.
///
/// The order of fields and elements is significant: it is the order in
/// which they are decoded and encoded. Names are content, not keys.
#[derive(Debug, PartialEq, Eq, Hash)]
pub enum Schema {
    I8,
    U8,
    I16,
    U16,
    I32,
    U32,
    I64,
    U64,
    I128,
    U128,
    F32,
    F64,
    Bool,
    Char,
    Unit,
    String,
    Struct(StructSchema),
    Tuple(TupleSchema),
    /// (name, elements)
    TupleStruct(String, TupleSchema),
    /// (name, inner)
    NewtypeStruct(String, Box<Schema>),
    /// Holds the name.
    UnitStruct(String),
    /// An enum whose variants carry no data.
    Enum(EnumSchema),
}

/// The ordered element schemas of a tuple.
pub type TupleSchema = Vec<Schema>;

/// An enum of unit variants: its name and its variant names, in order.
#[derive(Debug, PartialEq, Eq, Hash)]
pub struct EnumSchema {
    pub name: String,
    pub variants: Vec<String>,
}

/// A struct: its name and its fields, in order.
#[derive(Debug, PartialEq, Eq, Hash)]
pub struct StructSchema {
    pub name: String,
    pub fields: Vec<(String, Schema)>,
}

/// The mathematical model of an [`EnumSchema`].
pub struct EnumSchemaView {
    pub name: Seq<char>,
    pub variants: Seq<Seq<char>>,
}

/// The mathematical model of a [`StructSchema`]: the field names and the
/// field schemas are two sequences of the same length.
pub struct StructSchemaView {
    pub name: Seq<char>,
    pub field_names: Seq<Seq<char>>,
    pub field_schemas: Seq<SchemaView>,
}

/// The mathematical model of a [`Schema`].
pub enum SchemaView {
    I8,
    U8,
    I16,
    U16,
    I32,
    U32,
    I64,
    U64,
    I128,
    U128,
    F32,
    F64,
    Bool,
    Char,
    Unit,
    String,
    Struct(StructSchemaView),
    Tuple(Seq<SchemaView>),
    TupleStruct(Seq<char>, Seq<SchemaView>),
    NewtypeStruct(Seq<char>, Box<SchemaView>),
    UnitStruct(Seq<char>),
    Enum(EnumSchemaView),
}

/// The models of a sequence of names.
pub open spec fn names_view(names: Seq<String>) -> Seq<Seq<char>> {
    Seq::new(names.len(), |i: int| names[i]@)
}

/// The models of a sequence of schemas.
pub open spec fn schemas_view(schemas: Seq<Schema>) -> Seq<SchemaView>
    decreases schemas,
{
    Seq::new(
        schemas.len(),
        |i: int|
            if 0 <= i < schemas.len() {
                schemas[i]@
            } else {
                SchemaView::Unit
            },
    )
}

/// The names of a sequence of named fields.
pub open spec fn field_names_view(fields: Seq<(String, Schema)>) -> Seq<Seq<char>> {
    Seq::new(fields.len(), |i: int| fields[i].0@)
}

/// The schemas of a sequence of named fields.
pub open spec fn field_schemas_view(fields: Seq<(String, Schema)>) -> Seq<SchemaView>
    decreases fields,
{
    Seq::new(
        fields.len(),
        |i: int|
            if 0 <= i < fields.len() {
                fields[i].1@
            } else {
                SchemaView::Unit
            },
    )
}

impl View for EnumSchema {
    type V = EnumSchemaView;

    open spec fn view(&self) -> EnumSchemaView {
        EnumSchemaView { name: self.name@, variants: names_view(self.variants@) }
    }
}

impl View for StructSchema {
    type V = StructSchemaView;

    open spec fn view(&self) -> StructSchemaView
        decreases self,
    {
        StructSchemaView {
            name: self.name@,
            field_names: field_names_view(self.fields@),
            field_schemas: field_schemas_view(self.fields@),
        }
    }
}

impl View for Schema {
    type V = SchemaView;

    open spec fn view(&self) -> SchemaView
        decreases self,
    {
        match self {
            Schema::I8 => SchemaView::I8,
            Schema::U8 => SchemaView::U8,
            Schema::I16 => SchemaView::I16,
            Schema::U16 => SchemaView::U16,
            Schema::I32 => SchemaView::I32,
            Schema::U32 => SchemaView::U32,
            Schema::I64 => SchemaView::I64,
            Schema::U64 => SchemaView::U64,
            Schema::I128 => SchemaView::I128,
            Schema::U128 => SchemaView::U128,
            Schema::F32 => SchemaView::F32,
            Schema::F64 => SchemaView::F64,
            Schema::Bool => SchemaView::Bool,
            Schema::Char => SchemaView::Char,
            Schema::Unit => SchemaView::Unit,
            Schema::String => SchemaView::String,
            Schema::Struct(s) => SchemaView::Struct(s@),
            Schema::Tuple(elements) => SchemaView::Tuple(schemas_view(elements@)),
            Schema::TupleStruct(name, elements) => SchemaView::TupleStruct(
                name@,
                schemas_view(elements@),
            ),
            Schema::NewtypeStruct(name, inner) => SchemaView::NewtypeStruct(
                name@,
                Box::new((**inner)@),
            ),
            Schema::UnitStruct(name) => SchemaView::UnitStruct(name@),
            Schema::Enum(e) => SchemaView::Enum(e@),
        }
    }
}

impl SchemaView {
    /// How deeply products are nested in the schema. A scalar, a unit
    /// struct or an enum has height 0.
    pub open spec fn height(self) -> nat
        decreases self,
    {
        match self {
            SchemaView::Struct(s) => 1 + max_height(s.field_schemas),
            SchemaView::Tuple(elements) => 1 + max_height(elements),
            SchemaView::TupleStruct(_, elements) => 1 + max_height(elements),
            SchemaView::NewtypeStruct(_, inner) => 1 + inner.height(),
            _ => 0,
        }
    }
}

/// The greatest height among the schemas; 0 where there is none.
pub open spec fn max_height(schemas: Seq<SchemaView>) -> nat
    decreases schemas,
{
    if schemas.len() == 0 {
        0
    } else {
        let front = max_height(schemas.drop_last());
        let last = schemas.last().height();
        if front >= last {
            front
        } else {
            last
        }
    }
}

/// No schema of a sequence is higher than the sequence's greatest height.
pub proof fn lemma_max_height_bounds(schemas: Seq<SchemaView>, i: int)
    requires
        0 <= i < schemas.len(),
    ensures
        schemas[i].height() <= max_height(schemas),
    decreases schemas.len(),
{
    if i < schemas.len() - 1 {
        lemma_max_height_bounds(schemas.drop_last(), i);
    }
}

/// A copy of a list of names.
pub fn clone_names(names: &Vec<String>) -> (r: Vec<String>)
    ensures
        names_view(r@) == names_view(names@),
{
    let mut out: Vec<String> = Vec::new();
    let mut i: usize = 0;
    while i < names.len()
        invariant
            i <= names.len(),
            out.len() == i,
            forall|j: int| 0 <= j < i ==> out[j]@ == names[j]@,
        decreases names.len() - i,
    {
        out.push(names[i].clone());
        i += 1;
    }
    assert(names_view(out@) =~= names_view(names@));
    out
}

/// A copy of a list of schemas.
pub fn clone_schemas(schemas: &Vec<Schema>) -> (r: Vec<Schema>)
    ensures
        schemas_view(r@) == schemas_view(schemas@),
    decreases schemas,
{
    let mut out: Vec<Schema> = Vec::new();
    let mut i: usize = 0;
    while i < schemas.len()
        invariant
            i <= schemas.len(),
            out.len() == i,
            forall|j: int| 0 <= j < i ==> out[j]@ == schemas[j]@,
        decreases schemas.len() - i,
    {
        proof {
            assert(decreases_to!(*schemas => schemas[i as int]));
        }
        out.push(schemas[i].clone());
        i += 1;
    }
    assert(schemas_view(out@) =~= schemas_view(schemas@));
    out
}

impl Clone for EnumSchema {
    fn clone(&self) -> (r: Self)
        ensures
            r@ == self@,
    {
        EnumSchema { name: self.name.clone(), variants: clone_names(&self.variants) }
    }
}

impl Clone for StructSchema {
    fn clone(&self) -> (r: Self)
        ensures
            r@ == self@,
        decreases self,
    {
        let mut out: Vec<(String, Schema)> = Vec::new();
        let mut i: usize = 0;
        while i < self.fields.len()
            invariant
                i <= self.fields.len(),
                out.len() == i,
                forall|j: int|
                    0 <= j < i ==> out[j].0@ == self.fields[j].0@ && out[j].1@ == self.fields[j].1@,
            decreases self.fields.len() - i,
        {
            proof {
                assert(decreases_to!(*self => self.fields));
                assert(decreases_to!(self.fields => self.fields[i as int]));
                assert(decreases_to!(self.fields[i as int] => self.fields[i as int].1));
            }
            out.push((self.fields[i].0.clone(), self.fields[i].1.clone()));
            i += 1;
        }
        let r = StructSchema { name: self.name.clone(), fields: out };
        assert(r@.field_names =~= self@.field_names);
        assert(r@.field_schemas =~= self@.field_schemas);
        r
    }
}

impl Clone for Schema {
    fn clone(&self) -> (r: Self)
        ensures
            r@ == self@,
        decreases self,
    {
        match self {
            Schema::I8 => Schema::I8,
            Schema::U8 => Schema::U8,
            Schema::I16 => Schema::I16,
            Schema::U16 => Schema::U16,
            Schema::I32 => Schema::I32,
            Schema::U32 => Schema::U32,
            Schema::I64 => Schema::I64,
            Schema::U64 => Schema::U64,
            Schema::I128 => Schema::I128,
            Schema::U128 => Schema::U128,
            Schema::F32 => Schema::F32,
            Schema::F64 => Schema::F64,
            Schema::Bool => Schema::Bool,
            Schema::Char => Schema::Char,
            Schema::Unit => Schema::Unit,
            Schema::String => Schema::String,
            Schema::Struct(s) => Schema::Struct(s.clone()),
            Schema::Tuple(elements) => Schema::Tuple(clone_schemas(elements)),
            Schema::TupleStruct(name, elements) => Schema::TupleStruct(
                name.clone(),
                clone_schemas(elements),
            ),
            Schema::NewtypeStruct(name, inner) => Schema::NewtypeStruct(
                name.clone(),
                Box::new((**inner).clone()),
            ),
            Schema::UnitStruct(name) => Schema::UnitStruct(name.clone()),
            Schema::Enum(e) => Schema::Enum(e.clone()),
        }
    }
}

} // verus!
