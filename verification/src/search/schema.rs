//! The schema of the document index.

use vstd::prelude::*;

verus! {

/// The schema of an index.
#[verifier::external_type_specification]
#[verifier::external_body]
pub struct ExSchema(tantivy::schema::Schema);

/// What a schema is built with.
#[verifier::external_type_specification]
#[verifier::external_body]
pub struct ExSchemaBuilder(tantivy::schema::SchemaBuilder);

/// A field of a schema.
#[verifier::external_type_specification]
#[verifier::external_body]
pub struct ExField(tantivy::schema::Field);

/// How a field is kept.
pub enum FieldKind {
    /// A text that is stored, and found as a whole.
    Exact,
    /// A text that is stored, and found by each of its words.
    FullText,
    /// A text that is stored.
    StoredText,
    /// A whole number that is stored.
    StoredNumber,
}

/// A field: its name, and how it is kept.
#[verifier::ext_equal]
pub struct FieldModel {
    pub name: Seq<char>,
    pub kind: FieldKind,
}

/// The fields that a builder has so far, in the order in which they were added.
pub uninterp spec fn builder_fields(builder: tantivy::schema::SchemaBuilder) -> Seq<FieldModel>;

/// The fields of a schema, in order.
pub uninterp spec fn schema_fields(schema: tantivy::schema::Schema) -> Seq<FieldModel>;

/// The place of a field in its schema.
pub uninterp spec fn field_place(field: tantivy::schema::Field) -> nat;

/// Whether one of the fields has this name.
pub open spec fn has_field(fields: Seq<FieldModel>, name: Seq<char>) -> bool {
    exists|i: int| 0 <= i < fields.len() && (#[trigger] fields[i]).name == name
}

/// Whether a field may have this name.
pub open spec fn is_field_name(name: Seq<char>) -> bool {
    name.len() > 0 && name[0] != '-'
}

/// `tantivy::schema::Schema::builder`: a builder without fields.
#[verifier::external_body]
fn new_builder() -> (r: tantivy::schema::SchemaBuilder)
    ensures
        builder_fields(r) == Seq::<FieldModel>::empty(),
{
    tantivy::schema::Schema::builder()
}

/// `tantivy::schema::SchemaBuilder::add_text_field` with `STRING | STORED`: a field
/// that is indexed as one raw term, and stored, behind the fields that are there.
/// The call panics where the name is empty, starts with `-` or is taken.
#[verifier::external_body]
fn add_exact_field(builder: &mut tantivy::schema::SchemaBuilder, name: &str)
    requires
        is_field_name(name@),
        !has_field(builder_fields(*old(builder)), name@),
    ensures
        builder_fields(*final(builder)) == builder_fields(*old(builder)).push(
            (FieldModel { name: name@, kind: FieldKind::Exact }),
        ),
{
    builder.add_text_field(name, tantivy::schema::STRING | tantivy::schema::STORED);
}

/// `tantivy::schema::SchemaBuilder::add_text_field` with `TEXT | STORED`: a field
/// that is indexed by its tokens, and stored, behind the fields that are there.
/// The call panics where the name is empty, starts with `-` or is taken.
#[verifier::external_body]
fn add_full_text_field(builder: &mut tantivy::schema::SchemaBuilder, name: &str)
    requires
        is_field_name(name@),
        !has_field(builder_fields(*old(builder)), name@),
    ensures
        builder_fields(*final(builder)) == builder_fields(*old(builder)).push(
            (FieldModel { name: name@, kind: FieldKind::FullText }),
        ),
{
    builder.add_text_field(name, tantivy::schema::TEXT | tantivy::schema::STORED);
}

/// `tantivy::schema::SchemaBuilder::add_text_field` with `STORED`: a field that is
/// stored and not indexed, behind the fields that are there. The call panics where
/// the name is empty, starts with `-` or is taken.
#[verifier::external_body]
fn add_stored_field(builder: &mut tantivy::schema::SchemaBuilder, name: &str)
    requires
        is_field_name(name@),
        !has_field(builder_fields(*old(builder)), name@),
    ensures
        builder_fields(*final(builder)) == builder_fields(*old(builder)).push(
            (FieldModel { name: name@, kind: FieldKind::StoredText }),
        ),
{
    builder.add_text_field(name, tantivy::schema::STORED);
}

/// `tantivy::schema::SchemaBuilder::add_i64_field` with `STORED`: a number that is
/// stored and not indexed, behind the fields that are there. The call panics where
/// the name is empty, starts with `-` or is taken.
#[verifier::external_body]
fn add_number_field(builder: &mut tantivy::schema::SchemaBuilder, name: &str)
    requires
        is_field_name(name@),
        !has_field(builder_fields(*old(builder)), name@),
    ensures
        builder_fields(*final(builder)) == builder_fields(*old(builder)).push(
            (FieldModel { name: name@, kind: FieldKind::StoredNumber }),
        ),
{
    builder.add_i64_field(name, tantivy::schema::STORED);
}

/// `tantivy::schema::SchemaBuilder::build`: a schema with the fields of the builder.
#[verifier::external_body]
fn finish_schema(builder: tantivy::schema::SchemaBuilder) -> (r: tantivy::schema::Schema)
    ensures
        schema_fields(r) == builder_fields(builder),
{
    builder.build()
}

/// `tantivy::schema::Schema::get_field`: the field with a name, where there is one.
#[verifier::external_body]
fn find_field(schema: &tantivy::schema::Schema, name: &str) -> (r: Option<tantivy::schema::Field>)
    ensures
        match r {
            Some(field) => field_place(field) < schema_fields(*schema).len() && schema_fields(
                *schema,
            )[field_place(field) as int].name == name@,
            None => !has_field(schema_fields(*schema), name@),
        },
{
    schema.get_field(name).ok()
}

/// `tantivy::schema::Field::field_id`: the place of a field in its schema.
#[verifier::external_body]
pub(crate) fn place_of_field(field: &tantivy::schema::Field) -> (r: u32)
    ensures
        r == field_place(*field),
{
    field.field_id()
}

/// The fields of the document index:
/// - `doc_id`: stable document identifier (content hash and file type)
/// - `file_path`: full path, stored only, for display
/// - `file_name`: the name of the file, stored and searchable
/// - `body`: the extracted text, stored and searchable by its words
/// - `file_type`: "pdf", "txt", "md" or "log"
/// - `modified_ts`: last modification, in seconds since 1970, stored only
/// - `content_hash`: the content hash, by which documents are deleted
/// - `tags`: the tags, any number of them
pub open spec fn index_fields() -> Seq<FieldModel> {
    seq![
        FieldModel { name: "doc_id"@, kind: FieldKind::Exact },
        FieldModel { name: "file_path"@, kind: FieldKind::StoredText },
        FieldModel { name: "file_name"@, kind: FieldKind::FullText },
        FieldModel { name: "body"@, kind: FieldKind::FullText },
        FieldModel { name: "file_type"@, kind: FieldKind::Exact },
        FieldModel { name: "modified_ts"@, kind: FieldKind::StoredNumber },
        FieldModel { name: "content_hash"@, kind: FieldKind::Exact },
        FieldModel { name: "tags"@, kind: FieldKind::Exact },
    ]
}

/// The names of the fields are fit to be such, and no two are the same.
pub proof fn lemma_field_names()
    ensures
        forall|i: int| 0 <= i < 8 ==> is_field_name((#[trigger] index_fields()[i]).name),
        forall|i: int, j: int|
            0 <= i < 8 && 0 <= j < 8 && i != j ==> (#[trigger] index_fields()[i]).name != (
            #[trigger] index_fields()[j]).name,
{
    reveal_strlit("doc_id");
    reveal_strlit("file_path");
    reveal_strlit("file_name");
    reveal_strlit("body");
    reveal_strlit("file_type");
    reveal_strlit("modified_ts");
    reveal_strlit("content_hash");
    reveal_strlit("tags");
    assert("file_path"@[5] == 'p');
    assert("file_name"@[5] == 'n');
    assert("file_type"@[5] == 't');
    assert("body"@[0] == 'b');
    assert("tags"@[0] == 't');
    assert forall|i: int, j: int| 0 <= i < 8 && 0 <= j < 8 && i != j implies (
    #[trigger] index_fields()[i]).name != (#[trigger] index_fields()[j]).name by {
        let a = index_fields()[i].name;
        let b = index_fields()[j].name;
        if a == b {
            assert(a.len() == b.len());
            if a.len() == 9 {
                assert(a[5] == b[5]);
            } else {
                assert(a[0] == b[0]);
            }
        }
    }
}

/// Creates and returns the schema for the document index.
pub fn build_schema() -> (r: tantivy::schema::Schema)
    ensures
        schema_fields(r) == index_fields(),
{
    proof {
        lemma_field_names();
        assert(index_fields()[0].name == "doc_id"@);
        assert(index_fields()[1].name == "file_path"@);
        assert(index_fields()[2].name == "file_name"@);
        assert(index_fields()[3].name == "body"@);
        assert(index_fields()[4].name == "file_type"@);
        assert(index_fields()[5].name == "modified_ts"@);
        assert(index_fields()[6].name == "content_hash"@);
        assert(index_fields()[7].name == "tags"@);
    }
    let mut builder: tantivy::schema::SchemaBuilder = new_builder();
    add_exact_field(&mut builder, "doc_id");
    add_stored_field(&mut builder, "file_path");
    add_full_text_field(&mut builder, "file_name");
    add_full_text_field(&mut builder, "body");
    add_exact_field(&mut builder, "file_type");
    add_number_field(&mut builder, "modified_ts");
    add_exact_field(&mut builder, "content_hash");
    add_exact_field(&mut builder, "tags");
    let schema: tantivy::schema::Schema = finish_schema(builder);
    assert(schema_fields(schema) =~= index_fields());
    schema
}

/// The fields of the document index, each at hand.
#[derive(Clone, Copy)]
pub struct SchemaFields {
    pub doc_id: tantivy::schema::Field,
    pub file_path: tantivy::schema::Field,
    pub file_name: tantivy::schema::Field,
    pub body: tantivy::schema::Field,
    pub file_type: tantivy::schema::Field,
    pub modified_ts: tantivy::schema::Field,
    pub content_hash: tantivy::schema::Field,
    pub tags: tantivy::schema::Field,
}

/// A field is the one of this name in a schema.
pub open spec fn is_field_of(
    schema: tantivy::schema::Schema,
    name: Seq<char>,
    field: tantivy::schema::Field,
) -> bool {
    field_place(field) < schema_fields(schema).len() && schema_fields(
        schema,
    )[field_place(field) as int].name == name
}

impl SchemaFields {
    /// The fields of a schema that has all of them; none where one is missing.
    pub fn find_in(schema: &tantivy::schema::Schema) -> (r: Option<Self>)
        ensures
            r is Some <==> forall|i: int|
                0 <= i < 8 ==> has_field(schema_fields(*schema), #[trigger] index_fields()[i].name),
            r is Some ==> r->0.are_of(*schema),
    {
        proof {
            assert(index_fields()[0].name == "doc_id"@);
            assert(index_fields()[1].name == "file_path"@);
            assert(index_fields()[2].name == "file_name"@);
            assert(index_fields()[3].name == "body"@);
            assert(index_fields()[4].name == "file_type"@);
            assert(index_fields()[5].name == "modified_ts"@);
            assert(index_fields()[6].name == "content_hash"@);
            assert(index_fields()[7].name == "tags"@);
        }
        match (
            find_field(schema, "doc_id"),
            find_field(schema, "file_path"),
            find_field(schema, "file_name"),
            find_field(schema, "body"),
            find_field(schema, "file_type"),
            find_field(schema, "modified_ts"),
            find_field(schema, "content_hash"),
            find_field(schema, "tags"),
        ) {
            (
                Some(doc_id),
                Some(file_path),
                Some(file_name),
                Some(body),
                Some(file_type),
                Some(modified_ts),
                Some(content_hash),
                Some(tags),
            ) => {
                let r = SchemaFields {
                    doc_id: doc_id,
                    file_path: file_path,
                    file_name: file_name,
                    body: body,
                    file_type: file_type,
                    modified_ts: modified_ts,
                    content_hash: content_hash,
                    tags: tags,
                };
                assert(forall|i: int|
                    0 <= i < 8 ==> has_field(
                        schema_fields(*schema),
                        #[trigger] index_fields()[i].name,
                    ));
                Some(r)
            },
            _ => None,
        }
    }

    /// The fields of a schema that has all of them.
    pub fn from_schema(schema: &tantivy::schema::Schema) -> (r: Self)
        requires
            forall|i: int|
                0 <= i < 8 ==> has_field(schema_fields(*schema), #[trigger] index_fields()[i].name),
        ensures
            r.are_of(*schema),
    {
        Self::find_in(schema).unwrap()
    }

    /// The places of the fields, in the order of the index.
    pub open spec fn places(self) -> Seq<nat> {
        seq![
            field_place(self.doc_id),
            field_place(self.file_path),
            field_place(self.file_name),
            field_place(self.body),
            field_place(self.file_type),
            field_place(self.modified_ts),
            field_place(self.content_hash),
            field_place(self.tags),
        ]
    }

    /// Each field is the one of its name in a schema.
    pub open spec fn are_of(self, schema: tantivy::schema::Schema) -> bool {
        &&& is_field_of(schema, "doc_id"@, self.doc_id)
        &&& is_field_of(schema, "file_path"@, self.file_path)
        &&& is_field_of(schema, "file_name"@, self.file_name)
        &&& is_field_of(schema, "body"@, self.body)
        &&& is_field_of(schema, "file_type"@, self.file_type)
        &&& is_field_of(schema, "modified_ts"@, self.modified_ts)
        &&& is_field_of(schema, "content_hash"@, self.content_hash)
        &&& is_field_of(schema, "tags"@, self.tags)
    }
}

/// The fields of a schema stand at different places.
pub proof fn fields_are_apart(schema: tantivy::schema::Schema, fields: SchemaFields)
    requires
        fields.are_of(schema),
    ensures
        forall|i: int, j: int|
            0 <= i < 8 && 0 <= j < 8 && i != j ==> (#[trigger] fields.places()[i]) != (
            #[trigger] fields.places()[j]),
{
    lemma_field_names();
    let all = schema_fields(schema);
    assert forall|i: int| 0 <= i < 8 implies all[(#[trigger] fields.places()[i]) as int].name
        == index_fields()[i].name by {}
    assert forall|i: int, j: int| 0 <= i < 8 && 0 <= j < 8 && i != j implies (
    #[trigger] fields.places()[i]) != (#[trigger] fields.places()[j]) by {
        assert(index_fields()[i].name != index_fields()[j].name);
    }
}

/// The fields of the index: the text and the name of a document are found by their words,
/// its identifier, type, hash and tags as a whole, and its path and time are stored only.
pub proof fn text_and_name_are_searchable(fields: SchemaFields, schema: tantivy::schema::Schema)
    ensures
        index_fields().len() == 8,
        index_fields()[0] == (FieldModel { name: "doc_id"@, kind: FieldKind::Exact }),
        index_fields()[1] == (FieldModel { name: "file_path"@, kind: FieldKind::StoredText }),
        index_fields()[2] == (FieldModel { name: "file_name"@, kind: FieldKind::FullText }),
        index_fields()[3] == (FieldModel { name: "body"@, kind: FieldKind::FullText }),
        index_fields()[4] == (FieldModel { name: "file_type"@, kind: FieldKind::Exact }),
        index_fields()[5] == (FieldModel { name: "modified_ts"@, kind: FieldKind::StoredNumber }),
        index_fields()[6] == (FieldModel { name: "content_hash"@, kind: FieldKind::Exact }),
        index_fields()[7] == (FieldModel { name: "tags"@, kind: FieldKind::Exact }),
        fields.are_of(schema) ==> schema_fields(schema)[field_place(fields.body) as int].name
            == "body"@ && schema_fields(schema)[field_place(fields.tags) as int].name == "tags"@
            && schema_fields(schema)[field_place(fields.file_name) as int].name == "file_name"@
            && schema_fields(schema)[field_place(fields.file_path) as int].name == "file_path"@
            && schema_fields(schema)[field_place(fields.file_type) as int].name == "file_type"@
            && schema_fields(schema)[field_place(fields.content_hash) as int].name
            == "content_hash"@ && schema_fields(schema)[field_place(fields.modified_ts) as int].name
            == "modified_ts"@ && schema_fields(schema)[field_place(fields.doc_id) as int].name
            == "doc_id"@,
{
}

} // verus!
