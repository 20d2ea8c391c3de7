//! Schema inference: the schema of a type, recorded from the decode
//! requests that the type makes, without any input bytes.

use crate::error::{ErrorKind, GenericError};
use crate::schema::{
    names_view, schemas_view, Schema, SchemaView, StructSchema, StructSchemaView,
};
use vstd::prelude::*;

verus! {

/// The shape that a type asks the decode protocol for: one request, and for
/// a product the requests of its fields or elements in declared order.
///
/// The last six variants are shapes that schemas do not model.
#[derive(Debug, PartialEq, Eq, Hash)]
pub enum TypeDescriptor {
    I8,
    U8,
    I16,
    U16,
    I32,
    U32,
    I64,
    U64,
    I128,
    U128,
    F32,
    F64,
    Bool,
    Char,
    Unit,
    /// A borrowed string.
    Str,
    /// An owned string.
    String,
    Struct { name: String, fields: Vec<(String, TypeDescriptor)> },
    Tuple(Vec<TypeDescriptor>),
    TupleStruct(String, Vec<TypeDescriptor>),
    NewtypeStruct(String, Box<TypeDescriptor>),
    UnitStruct(String),
    /// A sequence of variable length.
    Sequence,
    /// An associative container.
    Mapping,
    /// An optional value.
    Optional,
    /// A borrowed raw byte buffer.
    Bytes,
    /// An owned raw byte buffer.
    ByteBuf,
    /// A sum type, with or without data in its variants.
    Enum,
}

/// The mathematical model of a [`TypeDescriptor`]. A struct is modelled by
/// its name and two sequences of the same length, the field names and the
/// field types.
pub enum DescriptorView {
    I8,
    U8,
    I16,
    U16,
    I32,
    U32,
    I64,
    U64,
    I128,
    U128,
    F32,
    F64,
    Bool,
    Char,
    Unit,
    Str,
    String,
    Struct { name: Seq<char>, field_names: Seq<Seq<char>>, field_types: Seq<DescriptorView> },
    Tuple(Seq<DescriptorView>),
    TupleStruct(Seq<char>, Seq<DescriptorView>),
    NewtypeStruct(Seq<char>, Box<DescriptorView>),
    UnitStruct(Seq<char>),
    Sequence,
    Mapping,
    Optional,
    Bytes,
    ByteBuf,
    Enum,
}

/// The models of a sequence of descriptors.
pub open spec fn descriptors_view(types: Seq<TypeDescriptor>) -> Seq<DescriptorView>
    decreases types,
{
    Seq::new(
        types.len(),
        |i: int|
            if 0 <= i < types.len() {
                types[i]@
            } else {
                DescriptorView::Unit
            },
    )
}

/// The names of a sequence of named descriptors.
pub open spec fn descriptor_names_view(fields: Seq<(String, TypeDescriptor)>) -> Seq<Seq<char>> {
    Seq::new(fields.len(), |i: int| fields[i].0@)
}

/// The descriptors of a sequence of named descriptors.
pub open spec fn field_types_view(fields: Seq<(String, TypeDescriptor)>) -> Seq<DescriptorView>
    decreases fields,
{
    Seq::new(
        fields.len(),
        |i: int|
            if 0 <= i < fields.len() {
                fields[i].1@
            } else {
                DescriptorView::Unit
            },
    )
}

impl View for TypeDescriptor {
    type V = DescriptorView;

    open spec fn view(&self) -> DescriptorView
        decreases self,
    {
        match self {
            TypeDescriptor::I8 => DescriptorView::I8,
            TypeDescriptor::U8 => DescriptorView::U8,
            TypeDescriptor::I16 => DescriptorView::I16,
            TypeDescriptor::U16 => DescriptorView::U16,
            TypeDescriptor::I32 => DescriptorView::I32,
            TypeDescriptor::U32 => DescriptorView::U32,
            TypeDescriptor::I64 => DescriptorView::I64,
            TypeDescriptor::U64 => DescriptorView::U64,
            TypeDescriptor::I128 => DescriptorView::I128,
            TypeDescriptor::U128 => DescriptorView::U128,
            TypeDescriptor::F32 => DescriptorView::F32,
            TypeDescriptor::F64 => DescriptorView::F64,
            TypeDescriptor::Bool => DescriptorView::Bool,
            TypeDescriptor::Char => DescriptorView::Char,
            TypeDescriptor::Unit => DescriptorView::Unit,
            TypeDescriptor::Str => DescriptorView::Str,
            TypeDescriptor::String => DescriptorView::String,
            TypeDescriptor::Struct { name, fields } => DescriptorView::Struct {
                name: name@,
                field_names: descriptor_names_view(fields@),
                field_types: field_types_view(fields@),
            },
            TypeDescriptor::Tuple(elements) => DescriptorView::Tuple(descriptors_view(elements@)),
            TypeDescriptor::TupleStruct(name, elements) => DescriptorView::TupleStruct(
                name@,
                descriptors_view(elements@),
            ),
            TypeDescriptor::NewtypeStruct(name, inner) => DescriptorView::NewtypeStruct(
                name@,
                Box::new((**inner)@),
            ),
            TypeDescriptor::UnitStruct(name) => DescriptorView::UnitStruct(name@),
            TypeDescriptor::Sequence => DescriptorView::Sequence,
            TypeDescriptor::Mapping => DescriptorView::Mapping,
            TypeDescriptor::Optional => DescriptorView::Optional,
            TypeDescriptor::Bytes => DescriptorView::Bytes,
            TypeDescriptor::ByteBuf => DescriptorView::ByteBuf,
            TypeDescriptor::Enum => DescriptorView::Enum,
        }
    }
}

impl DescriptorView {
    /// Whether schemas model the shape: whether no sequence, map, optional
    /// value, raw byte buffer or sum type occurs anywhere in it.
    pub open spec fn supported(self) -> bool
        decreases self,
    {
        match self {
            DescriptorView::Struct { field_types, .. } => all_supported(field_types),
            DescriptorView::Tuple(elements) => all_supported(elements),
            DescriptorView::TupleStruct(_, elements) => all_supported(elements),
            DescriptorView::NewtypeStruct(_, inner) => inner.supported(),
            DescriptorView::Sequence => false,
            DescriptorView::Mapping => false,
            DescriptorView::Optional => false,
            DescriptorView::Bytes => false,
            DescriptorView::ByteBuf => false,
            DescriptorView::Enum => false,
            _ => true,
        }
    }

    /// The schema of the shape: the same scalar kind, or the same product
    /// with the same names and the schemas of its parts in the same order.
    /// Both kinds of string give the string schema. The result means
    /// nothing for a shape that is not supported.
    pub open spec fn schema(self) -> SchemaView
        decreases self,
    {
        match self {
            DescriptorView::I8 => SchemaView::I8,
            DescriptorView::U8 => SchemaView::U8,
            DescriptorView::I16 => SchemaView::I16,
            DescriptorView::U16 => SchemaView::U16,
            DescriptorView::I32 => SchemaView::I32,
            DescriptorView::U32 => SchemaView::U32,
            DescriptorView::I64 => SchemaView::I64,
            DescriptorView::U64 => SchemaView::U64,
            DescriptorView::I128 => SchemaView::I128,
            DescriptorView::U128 => SchemaView::U128,
            DescriptorView::F32 => SchemaView::F32,
            DescriptorView::F64 => SchemaView::F64,
            DescriptorView::Bool => SchemaView::Bool,
            DescriptorView::Char => SchemaView::Char,
            DescriptorView::Unit => SchemaView::Unit,
            DescriptorView::Str => SchemaView::String,
            DescriptorView::String => SchemaView::String,
            DescriptorView::Struct { name, field_names, field_types } => SchemaView::Struct(
                StructSchemaView { name, field_names, field_schemas: schemas_of(field_types) },
            ),
            DescriptorView::Tuple(elements) => SchemaView::Tuple(schemas_of(elements)),
            DescriptorView::TupleStruct(name, elements) => SchemaView::TupleStruct(
                name,
                schemas_of(elements),
            ),
            DescriptorView::NewtypeStruct(name, inner) => SchemaView::NewtypeStruct(
                name,
                Box::new(inner.schema()),
            ),
            DescriptorView::UnitStruct(name) => SchemaView::UnitStruct(name),
            _ => SchemaView::Unit,
        }
    }

    /// What inference gives for the shape: its schema, or `UnsupportedShape`.
    pub open spec fn inferred(self) -> Result<SchemaView, ErrorKind> {
        if self.supported() {
            Ok(self.schema())
        } else {
            Err(ErrorKind::UnsupportedShape)
        }
    }
}

/// Whether schemas model every shape of the sequence.
pub open spec fn all_supported(types: Seq<DescriptorView>) -> bool
    decreases types,
{
    forall|i: int| 0 <= i < types.len() ==> (#[trigger] types[i]).supported()
}

/// The schemas of the shapes, in order.
pub open spec fn schemas_of(types: Seq<DescriptorView>) -> Seq<SchemaView>
    decreases types,
{
    if types.len() == 0 {
        Seq::empty()
    } else {
        schemas_of(types.drop_last()).push(types.last().schema())
    }
}

/// A copy of a list of descriptors.
pub fn clone_descriptors(types: &Vec<TypeDescriptor>) -> (r: Vec<TypeDescriptor>)
    ensures
        descriptors_view(r@) == descriptors_view(types@),
    decreases types,
{
    let mut out: Vec<TypeDescriptor> = Vec::new();
    let mut i: usize = 0;
    while i < types.len()
        invariant
            i <= types.len(),
            out.len() == i,
            forall|j: int| 0 <= j < i ==> out[j]@ == types[j]@,
        decreases types.len() - i,
    {
        proof {
            assert(decreases_to!(*types => types[i as int]));
        }
        out.push(types[i].clone());
        i += 1;
    }
    assert(descriptors_view(out@) =~= descriptors_view(types@));
    out
}

impl Clone for TypeDescriptor {
    fn clone(&self) -> (r: Self)
        ensures
            r@ == self@,
        decreases self,
    {
        match self {
            TypeDescriptor::I8 => TypeDescriptor::I8,
            TypeDescriptor::U8 => TypeDescriptor::U8,
            TypeDescriptor::I16 => TypeDescriptor::I16,
            TypeDescriptor::U16 => TypeDescriptor::U16,
            TypeDescriptor::I32 => TypeDescriptor::I32,
            TypeDescriptor::U32 => TypeDescriptor::U32,
            TypeDescriptor::I64 => TypeDescriptor::I64,
            TypeDescriptor::U64 => TypeDescriptor::U64,
            TypeDescriptor::I128 => TypeDescriptor::I128,
            TypeDescriptor::U128 => TypeDescriptor::U128,
            TypeDescriptor::F32 => TypeDescriptor::F32,
            TypeDescriptor::F64 => TypeDescriptor::F64,
            TypeDescriptor::Bool => TypeDescriptor::Bool,
            TypeDescriptor::Char => TypeDescriptor::Char,
            TypeDescriptor::Unit => TypeDescriptor::Unit,
            TypeDescriptor::Str => TypeDescriptor::Str,
            TypeDescriptor::String => TypeDescriptor::String,
            TypeDescriptor::Struct { name, fields } => {
                let mut out: Vec<(String, TypeDescriptor)> = Vec::new();
                let mut i: usize = 0;
                while i < fields.len()
                    invariant
                        i <= fields.len(),
                        out.len() == i,
                        *self matches TypeDescriptor::Struct { fields: f, .. } && f == fields,
                        forall|j: int| 0 <= j < i ==> (#[trigger] out[j]).0@ == fields[j].0@,
                        forall|j: int| 0 <= j < i ==> (#[trigger] out[j]).1@ == fields[j].1@,
                    decreases fields.len() - i,
                {
                    proof {
                        assert(decreases_to!(*self => self->Struct_fields));
                        assert(decreases_to!(self->Struct_fields => self->Struct_fields[i as int]));
                        assert(decreases_to!(self->Struct_fields[i as int] => self->Struct_fields[i
                            as int].1));
                    }
                    out.push((fields[i].0.clone(), fields[i].1.clone()));
                    i += 1;
                }
                proof {
                    assert(descriptor_names_view(out@) =~= descriptor_names_view(fields@));
                    assert(field_types_view(out@) =~= field_types_view(fields@));
                }
                TypeDescriptor::Struct { name: name.clone(), fields: out }
            },
            TypeDescriptor::Tuple(elements) => TypeDescriptor::Tuple(clone_descriptors(elements)),
            TypeDescriptor::TupleStruct(name, elements) => TypeDescriptor::TupleStruct(
                name.clone(),
                clone_descriptors(elements),
            ),
            TypeDescriptor::NewtypeStruct(name, inner) => TypeDescriptor::NewtypeStruct(
                name.clone(),
                Box::new((**inner).clone()),
            ),
            TypeDescriptor::UnitStruct(name) => TypeDescriptor::UnitStruct(name.clone()),
            TypeDescriptor::Sequence => TypeDescriptor::Sequence,
            TypeDescriptor::Mapping => TypeDescriptor::Mapping,
            TypeDescriptor::Optional => TypeDescriptor::Optional,
            TypeDescriptor::Bytes => TypeDescriptor::Bytes,
            TypeDescriptor::ByteBuf => TypeDescriptor::ByteBuf,
            TypeDescriptor::Enum => TypeDescriptor::Enum,
        }
    }
}

/// The schemas of the first `count + 1` shapes are those of the first
/// `count` and then that of the next.
pub proof fn lemma_schemas_of_step(types: Seq<DescriptorView>, count: int)
    requires
        0 <= count < types.len(),
    ensures
        schemas_of(types.subrange(0, count + 1)) == schemas_of(types.subrange(0, count)).push(
            types[count].schema(),
        ),
{
    let next = types.subrange(0, count + 1);
    assert(next.drop_last() =~= types.subrange(0, count));
    assert(next.last() == types[count]);
}

/// There is one schema for each shape.
pub proof fn lemma_schemas_of_len(types: Seq<DescriptorView>)
    ensures
        schemas_of(types).len() == types.len(),
    decreases types.len(),
{
    if types.len() > 0 {
        lemma_schemas_of_len(types.drop_last());
    }
}

/// Records the structure of a type: the accumulator of schema nodes that
/// the decode requests of the type append to.
#[derive(Debug)]
pub struct SchemaRecorder(pub Vec<Schema>);

/// The element provider of a product: a fresh recorder for the elements,
/// and the number of elements that may still be asked for.
#[derive(Debug)]
pub struct SeqRecorder {
    pub records: SchemaRecorder,
    pub len: usize,
}

impl SchemaRecorder {
    /// The schemas recorded so far, in the order of their requests.
    pub open spec fn records(&self) -> Seq<SchemaView> {
        schemas_view(self.0@)
    }

    /// A recorder that has recorded nothing.
    pub fn new() -> (r: Self)
        ensures
            r.records() == Seq::<SchemaView>::empty(),
    {
        let r = SchemaRecorder(Vec::new());
        assert(r.records() =~= Seq::<SchemaView>::empty());
        r
    }

    /// Appends one schema node.
    pub fn record(&mut self, schema: Schema)
        ensures
            final(self).records() == old(self).records().push(schema@),
    {
        self.0.push(schema);
        assert(self.records() =~= old(self).records().push(schema@));
    }

    /// Appends the node of a struct: its name, and its field names paired
    /// position by position with the schemas that `rec` recorded, as far as
    /// both reach.
    pub fn deserialize_struct(&mut self, name: &str, fields: &Vec<String>, rec: SeqRecorder)
        ensures
            final(self).records() == old(self).records().push(
                SchemaView::Struct(
                    StructSchemaView {
                        name: name@,
                        field_names: names_view(fields@).take(paired(fields@.len(), rec)),
                        field_schemas: rec.records.records().take(paired(fields@.len(), rec)),
                    },
                ),
            ),
    {
        let count = if fields.len() <= rec.records.0.len() {
            fields.len()
        } else {
            rec.records.0.len()
        };
        let mut zipped: Vec<(String, Schema)> = Vec::new();
        let mut i: usize = 0;
        while i < count
            invariant
                i <= count,
                count <= fields.len(),
                count <= rec.records.0.len(),
                zipped.len() == i,
                forall|j: int| 0 <= j < i ==> (#[trigger] zipped[j]).0@ == fields[j]@,
                forall|j: int| 0 <= j < i ==> (#[trigger] zipped[j]).1@ == rec.records.0[j]@,
            decreases count - i,
        {
            zipped.push((fields[i].clone(), rec.records.0[i].clone()));
            i += 1;
        }
        let ghost pairs = zipped@;
        let schema = StructSchema { name: name.to_owned(), fields: zipped };
        proof {
            let recorded = rec.records.records();
            assert(schema.fields@ == pairs);
            assert forall|j: int| 0 <= j < count implies schema@.field_schemas[j]
                == recorded[j] by {
                assert(schema@.field_schemas[j] == pairs[j].1@);
                assert(pairs[j].1@ == rec.records.0@[j]@);
                assert(recorded[j] == rec.records.0@[j]@);
            }
            assert(schema@.field_names =~= names_view(fields@).take(count as int));
            assert(schema@.field_schemas =~= recorded.take(count as int));
        }
        self.record(Schema::Struct(schema));
    }

    /// Appends the node of a tuple whose elements are the schemas that
    /// `rec` recorded.
    pub fn deserialize_tuple(&mut self, rec: SeqRecorder)
        ensures
            final(self).records() == old(self).records().push(
                SchemaView::Tuple(rec.records.records()),
            ),
    {
        self.record(Schema::Tuple(rec.records.0));
    }

    /// Appends the node of a unit struct.
    pub fn deserialize_unit_struct(&mut self, name: &str)
        ensures
            final(self).records() == old(self).records().push(SchemaView::UnitStruct(name@)),
    {
        self.record(Schema::UnitStruct(name.to_owned()));
    }

    /// Appends the node of a tuple struct whose elements are the schemas
    /// that `rec` recorded.
    pub fn deserialize_tuple_struct(&mut self, name: &str, rec: SeqRecorder)
        ensures
            final(self).records() == old(self).records().push(
                SchemaView::TupleStruct(name@, rec.records.records()),
            ),
    {
        self.record(Schema::TupleStruct(name.to_owned(), rec.records.0));
    }

    /// Appends the node of a newtype struct around the first schema that
    /// `rec` recorded.
    pub fn deserialize_newtype_struct(&mut self, name: &str, rec: SeqRecorder)
        requires
            rec.records.records().len() > 0,
        ensures
            final(self).records() == old(self).records().push(
                SchemaView::NewtypeStruct(name@, Box::new(rec.records.records()[0])),
            ),
    {
        let mut rec = rec;
        let inner = rec.records.0.remove(0);
        self.record(Schema::NewtypeStruct(name.to_owned(), Box::new(inner)));
    }

    /// The first schema that was recorded: the schema of the type whose
    /// requests the recorder took.
    pub fn into_schema(self) -> (schema: Schema)
        requires
            self.records().len() > 0,
        ensures
            schema@ == self.records()[0],
    {
        let mut records = self.0;
        records.remove(0)
    }
}

/// How many field names are paired with a recorded schema: the smaller of
/// the number of names and the number of schemas.
pub open spec fn paired(names: nat, rec: SeqRecorder) -> int {
    if names <= rec.records.records().len() {
        names as int
    } else {
        rec.records.records().len() as int
    }
}

impl SeqRecorder {
    /// A provider of `len` elements that has recorded nothing.
    pub fn new(len: usize) -> (r: Self)
        ensures
            r.len == len,
            r.records.records() == Seq::<SchemaView>::empty(),
    {
        Self { records: SchemaRecorder::new(), len }
    }

    /// How many elements may still be asked for.
    pub fn size_hint(&self) -> (hint: Option<usize>)
        ensures
            hint == Some(self.len),
    {
        Some(self.len)
    }

    /// Takes one element off the provider: whether one was left.
    pub fn advance(&mut self) -> (more: bool)
        ensures
            more == (old(self).len > 0),
            final(self).len == if more {
                (old(self).len - 1) as usize
            } else {
                0usize
            },
            final(self).records == old(self).records,
    {
        if self.len > 0 {
            self.len -= 1;
            true
        } else {
            false
        }
    }

    /// The next element: records the schema of the shape `seed` after those
    /// recorded so far. `None`, recording nothing, where no element is left.
    /// Fails with `UnsupportedShape`, recording nothing, where schemas do
    /// not model the shape.
    pub fn next_element_seed(&mut self, seed: &TypeDescriptor) -> (r: Result<
        Option<()>,
        GenericError,
    >)
        ensures
            old(self).len == 0 ==> {
                &&& r == Ok::<Option<()>, GenericError>(None)
                &&& final(self).len == 0
                &&& final(self).records.records() == old(self).records.records()
            },
            old(self).len > 0 ==> {
                &&& final(self).len == old(self).len - 1
                &&& match seed@.inferred() {
                    Ok(schema) => {
                        &&& r == Ok::<Option<()>, GenericError>(Some(()))
                        &&& final(self).records.records() == old(self).records.records().push(
                            schema,
                        )
                    },
                    Err(kind) => {
                        &&& r matches Err(e)
                        &&& e.kind == kind
                        &&& final(self).records.records() == old(self).records.records()
                    },
                }
            },
        decreases seed, 1nat,
    {
        if self.len > 0 {
            self.len -= 1;
            seed.deserialize(&mut self.records)?;
            Ok(Some(()))
        } else {
            Ok(None)
        }
    }
}

impl TypeDescriptor {
    /// Makes the decode requests of the shape to `deserializer`, which
    /// records the schema of the shape after those it has recorded. Fails
    /// with `UnsupportedShape`, recording nothing, where schemas do not
    /// model the shape.
    pub fn deserialize(&self, deserializer: &mut SchemaRecorder) -> (r: Result<(), GenericError>)
        ensures
            match self@.inferred() {
                Ok(schema) => {
                    &&& r is Ok
                    &&& final(deserializer).records() == old(deserializer).records().push(schema)
                },
                Err(kind) => {
                    &&& r matches Err(e)
                    &&& e.kind == kind
                    &&& final(deserializer).records() == old(deserializer).records()
                },
            },
        decreases self, 0nat,
    {
        match self {
            TypeDescriptor::I8 => deserializer.record(Schema::I8),
            TypeDescriptor::U8 => deserializer.record(Schema::U8),
            TypeDescriptor::I16 => deserializer.record(Schema::I16),
            TypeDescriptor::U16 => deserializer.record(Schema::U16),
            TypeDescriptor::I32 => deserializer.record(Schema::I32),
            TypeDescriptor::U32 => deserializer.record(Schema::U32),
            TypeDescriptor::I64 => deserializer.record(Schema::I64),
            TypeDescriptor::U64 => deserializer.record(Schema::U64),
            TypeDescriptor::I128 => deserializer.record(Schema::I128),
            TypeDescriptor::U128 => deserializer.record(Schema::U128),
            TypeDescriptor::F32 => deserializer.record(Schema::F32),
            TypeDescriptor::F64 => deserializer.record(Schema::F64),
            TypeDescriptor::Bool => deserializer.record(Schema::Bool),
            TypeDescriptor::Char => deserializer.record(Schema::Char),
            TypeDescriptor::Unit => deserializer.record(Schema::Unit),
            TypeDescriptor::Str => deserializer.record(Schema::String),
            TypeDescriptor::String => deserializer.record(Schema::String),
            TypeDescriptor::Struct { name, fields } => {
                let ghost types = field_types_view(fields@);
                let mut rec = SeqRecorder::new(fields.len());
                let mut names: Vec<String> = Vec::new();
                let mut i: usize = 0;
                proof {
                    assert(types.subrange(0, 0) =~= Seq::<DescriptorView>::empty());
                }
                while i < fields.len()
                    invariant
                        i <= fields.len(),
                        *self matches TypeDescriptor::Struct { fields: f, .. } && f == fields,
                        types == field_types_view(fields@),
                        rec.len == fields.len() - i,
                        names.len() == i,
                        forall|j: int| 0 <= j < i ==> names[j]@ == fields[j].0@,
                        forall|j: int| 0 <= j < i ==> (#[trigger] types[j]).supported(),
                        rec.records.records() == schemas_of(types.subrange(0, i as int)),
                        deserializer.records() == old(deserializer).records(),
                    decreases fields.len() - i,
                {
                    proof {
                        assert(decreases_to!(*self => self->Struct_fields));
                        assert(decreases_to!(self->Struct_fields => self->Struct_fields[i as int]));
                        assert(decreases_to!(self->Struct_fields[i as int] => self->Struct_fields[i
                            as int].1));
                        lemma_schemas_of_step(types, i as int);
                        assert(types[i as int] == fields[i as int].1@);
                    }
                    match rec.next_element_seed(&fields[i].1) {
                        Ok(_) => {},
                        Err(e) => {
                            proof {
                                assert(!types[i as int].supported());
                                assert(self@ matches DescriptorView::Struct { field_types, .. }
                                    && field_types == types);
                                assert(!all_supported(types));
                            }
                            return Err(e);
                        },
                    }
                    names.push(fields[i].0.clone());
                    i += 1;
                }
                proof {
                    assert(types.subrange(0, i as int) =~= types);
                    lemma_schemas_of_len(types);
                    assert(names_view(names@).take(paired(names@.len(), rec))
                        =~= self@->Struct_field_names);
                    assert(rec.records.records().take(paired(names@.len(), rec)) =~= schemas_of(
                        types,
                    ));
                    assert(self@ matches DescriptorView::Struct { field_types, .. } && field_types
                        == types);
                    assert(all_supported(types));
                    assert(self@.supported());
                }
                deserializer.deserialize_struct(name.as_str(), &names, rec);
            },
            TypeDescriptor::Tuple(elements) => {
                let rec = match Self::visit_seq(elements) {
                    Ok(rec) => rec,
                    Err(e) => {
                        return Err(e);
                    },
                };
                assert(self@.supported());
                deserializer.deserialize_tuple(rec);
            },
            TypeDescriptor::TupleStruct(name, elements) => {
                let rec = match Self::visit_seq(elements) {
                    Ok(rec) => rec,
                    Err(e) => {
                        return Err(e);
                    },
                };
                assert(self@.supported());
                deserializer.deserialize_tuple_struct(name.as_str(), rec);
            },
            TypeDescriptor::NewtypeStruct(name, inner) => {
                let mut rec = SeqRecorder::new(1);
                match rec.next_element_seed(inner) {
                    Ok(_) => {},
                    Err(e) => {
                        return Err(e);
                    },
                }
                assert(self@.supported());
                deserializer.deserialize_newtype_struct(name.as_str(), rec);
            },
            TypeDescriptor::UnitStruct(name) => {
                deserializer.deserialize_unit_struct(name.as_str());
            },
            TypeDescriptor::Sequence => {
                return Err(GenericError::new(ErrorKind::UnsupportedShape));
            },
            TypeDescriptor::Mapping => {
                return Err(GenericError::new(ErrorKind::UnsupportedShape));
            },
            TypeDescriptor::Optional => {
                return Err(GenericError::new(ErrorKind::UnsupportedShape));
            },
            TypeDescriptor::Bytes => {
                return Err(GenericError::new(ErrorKind::UnsupportedShape));
            },
            TypeDescriptor::ByteBuf => {
                return Err(GenericError::new(ErrorKind::UnsupportedShape));
            },
            TypeDescriptor::Enum => {
                return Err(GenericError::new(ErrorKind::UnsupportedShape));
            },
        }
        Ok(())
    }

    /// Asks a fresh provider of as many elements as `elements` has for each
    /// of them in order, as the visitor of a tuple does.
    pub fn visit_seq(elements: &Vec<TypeDescriptor>) -> (r: Result<SeqRecorder, GenericError>)
        ensures
            match r {
                Ok(rec) => {
                    &&& all_supported(descriptors_view(elements@))
                    &&& rec.records.records() == schemas_of(descriptors_view(elements@))
                    &&& rec.len == 0
                },
                Err(e) => {
                    &&& !all_supported(descriptors_view(elements@))
                    &&& e.kind == ErrorKind::UnsupportedShape
                },
            },
        decreases elements, 2nat,
    {
        let ghost types = descriptors_view(elements@);
        let mut rec = SeqRecorder::new(elements.len());
        let mut i: usize = 0;
        proof {
            assert(types.subrange(0, 0) =~= Seq::<DescriptorView>::empty());
        }
        while i < elements.len()
            invariant
                i <= elements.len(),
                types == descriptors_view(elements@),
                rec.len == elements.len() - i,
                forall|j: int| 0 <= j < i ==> (#[trigger] types[j]).supported(),
                rec.records.records() == schemas_of(types.subrange(0, i as int)),
            decreases elements.len() - i,
        {
            proof {
                assert(decreases_to!(*elements => elements[i as int]));
                lemma_schemas_of_step(types, i as int);
                assert(types[i as int] == elements[i as int]@);
            }
            match rec.next_element_seed(&elements[i]) {
                Ok(_) => {},
                Err(e) => {
                    proof {
                        assert(!types[i as int].supported());
                    }
                    return Err(e);
                },
            }
            i += 1;
        }
        proof {
            assert(types.subrange(0, i as int) =~= types);
        }
        Ok(rec)
    }
}

/// Infers the schema of the shape `desc`.
///
/// Gives the schema of [`DescriptorView::schema`] where the shape is
/// supported, and fails with `UnsupportedShape` where a sequence, a map, an
/// optional value, a raw byte buffer or a sum type occurs anywhere in it.
/// The result depends on the shape alone: inferring twice gives equal
/// schemas.
pub fn record_schema(desc: &TypeDescriptor) -> (r: Result<Schema, GenericError>)
    ensures
        match desc@.inferred() {
            Ok(schema) => r matches Ok(s) && s@ == schema,
            Err(kind) => r matches Err(e) && e.kind == kind,
        },
{
    let mut rec = SchemaRecorder::new();
    desc.deserialize(&mut rec)?;
    Ok(rec.into_schema())
}

impl Schema {
    /// The schema of a supported shape.
    pub fn infer(desc: &TypeDescriptor) -> (schema: Schema)
        requires
            desc@.supported(),
        ensures
            schema@ == desc@.schema(),
    {
        match record_schema(desc) {
            Ok(schema) => schema,
            Err(_) => vstd::pervasive::unreached(),
        }
    }
}

/// Inference is a function of the shape: two descriptors of the same shape
/// give the same outcome, the same schema with the same kinds and the same
/// names in the same order, or the same failure.
pub proof fn lemma_inference_deterministic(first: TypeDescriptor, second: TypeDescriptor)
    requires
        first@ == second@,
    ensures
        first@.inferred() == second@.inferred(),
{
}

/// A shape that holds a sequence, a map, an optional value, a raw byte
/// buffer or a sum type is refused, wherever in the shape it stands.
pub proof fn lemma_unsupported_shape_rejected(desc: DescriptorView)
    requires
        !desc.supported(),
    ensures
        desc.inferred() == Err::<SchemaView, ErrorKind>(ErrorKind::UnsupportedShape),
{
}

} // verus!
