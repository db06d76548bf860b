//! JSON schemas and the completions they offer at the end of partial JSON
//! text (keys are offered unfiltered, without insertion text).

use vstd::prelude::*;
use vstd::string::StringExecFns;
use crate::text::{str_eq, starts_with, is_prefix, utf8_len, byte_len};
use crate::json::locate::{Location, Node, Ident, NodeView, IdentView, LocationView, locate_spec};

verus! {

broadcast use vstd::string::group_string_axioms;

/// Structure of a JSON value.
#[derive(Debug, PartialEq, Eq, PartialOrd, Ord, Hash)]
pub enum Schema {
    Object(Vec<SchemaField>),
    Array(Box<Schema>),
    String,
    Number,
    Bool,
}

impl Default for Schema {
    /// The empty object.
    fn default() -> (r: Self)
        ensures
            r matches Schema::Object(fields) && fields@.len() == 0,
    {
        Schema::Object(Vec::new())
    }
}

/// A named field of an object.
#[derive(Debug, PartialEq, Eq, PartialOrd, Ord, Hash)]
pub struct SchemaField {
    pub key: String,
    pub value: Schema,
    /// Description shown with the completion.
    pub description: String,
}

/// Two structures are alike all the way down: the same kinds, objects with
/// fields of the same keys, descriptions and structures, in the same order.
pub open spec fn same_shape(a: Schema, b: Schema) -> bool
    decreases a, 0nat,
{
    match a {
        Schema::Object(x) => match b {
            Schema::Object(y) => same_fields(x@, y@),
            _ => false,
        },
        Schema::Array(x) => match b {
            Schema::Array(y) => same_shape(*x, *y),
            _ => false,
        },
        Schema::String => b is String,
        Schema::Number => b is Number,
        Schema::Bool => b is Bool,
    }
}

/// Two lists of fields are alike, field by field: the same keys,
/// descriptions and structures, in the same order.
pub open spec fn same_fields(x: Seq<SchemaField>, y: Seq<SchemaField>) -> bool
    decreases x, x.len(),
{
    if x.len() == 0 {
        y.len() == 0
    } else {
        &&& y.len() == x.len()
        &&& same_fields(x.drop_last(), y.drop_last())
        &&& same_label(x.last(), y.last())
        &&& same_shape(x.last().value, y.last().value)
    }
}

/// Two fields have the same key, description and structure.
pub open spec fn same_field(a: SchemaField, b: SchemaField) -> bool {
    same_label(a, b) && same_shape(a.value, b.value)
}

/// Every structure is alike itself.
pub proof fn lemma_same_shape_refl(a: Schema)
    ensures
        same_shape(a, a),
    decreases a, 0nat,
{
    match a {
        Schema::Object(x) => {
            lemma_same_fields_refl(x@);
        },
        Schema::Array(x) => {
            lemma_same_shape_refl(*x);
        },
        _ => {},
    }
}

proof fn lemma_same_fields_refl(x: Seq<SchemaField>)
    ensures
        same_fields(x, x),
    decreases x, x.len(),
{
    if x.len() > 0 {
        assert(decreases_to!(x => x.last()));
        lemma_same_shape_refl(x.last().value);
        lemma_same_fields_refl(x.drop_last());
    }
}

/// Two fields have the same key and description.
pub open spec fn same_label(a: SchemaField, b: SchemaField) -> bool {
    a.key@ == b.key@ && a.description@ == b.description@
}

/// A copy of the structure `v`.
fn clone_value(v: &Schema) -> (r: Schema)
    ensures
        same_shape(*v, r),
    decreases v,
{
    match v {
        Schema::Object(fields) => {
            let mut out: Vec<SchemaField> = Vec::new();
            let mut i: usize = 0;
            while i < fields.len()
                invariant
                    *v == Schema::Object(*fields),
                    i <= fields.len(),
                    out.len() == i,
                    same_fields(fields@.take(i as int), out@),
                decreases fields.len() - i,
            {
                let f = &fields[i];
                proof {
                    assert(decreases_to!(*v => v->Object_0));
                    assert(decreases_to!(v->Object_0 => fields@));
                    assert(decreases_to!(fields@ => fields@[i as int]));
                    assert(decreases_to!(fields@[i as int] => fields@[i as int].value));
                }
                let ghost before = out@;
                out.push(
                    SchemaField {
                        key: f.key.clone(),
                        value: clone_value(&f.value),
                        description: f.description.clone(),
                    },
                );
                assert(fields@.take(i + 1).drop_last() =~= fields@.take(i as int));
                assert(out@.drop_last() =~= before);
                i += 1;
            }
            let r = Schema::Object(out);
            assert(fields@.take(fields@.len() as int) =~= fields@);
            r
        },
        Schema::Array(child) => Schema::Array(Box::new(clone_value(child))),
        Schema::String => Schema::String,
        Schema::Number => Schema::Number,
        Schema::Bool => Schema::Bool,
    }
}

impl Clone for Schema {
    /// A copy of this structure, alike all the way down.
    fn clone(&self) -> (r: Self)
        ensures
            same_shape(*self, r),
    {
        clone_value(self)
    }
}

impl Clone for SchemaField {
    /// A copy of this field: the same key, description and structure.
    fn clone(&self) -> (r: Self)
        ensures
            same_label(*self, r),
            same_shape(self.value, r.value),
    {
        SchemaField {
            key: self.key.clone(),
            value: clone_value(&self.value),
            description: self.description.clone(),
        }
    }
}

/// Kind of a completion.
#[derive(Debug, Clone, Copy, PartialEq, Eq, PartialOrd, Ord, Hash)]
pub enum IdentKind {
    Key,
    String,
    Number,
    Bool,
}

/// A completion for the end of partial JSON text: `len` bytes before the
/// end are replaced by `name`.
#[derive(Debug, Clone, PartialEq, Eq, PartialOrd, Ord, Hash)]
pub struct Completion {
    pub name: String,
    pub kind: IdentKind,
    pub len: usize,
    pub description: String,
}

/// A completion as characters.
pub struct CompletionView {
    pub name: Seq<char>,
    pub kind: IdentKind,
    pub len: nat,
    pub description: Seq<char>,
}

impl View for Completion {
    type V = CompletionView;

    open spec fn view(&self) -> CompletionView {
        CompletionView {
            name: self.name@,
            kind: self.kind,
            len: self.len as nat,
            description: self.description@,
        }
    }
}

/// A field seen through references; the root value has an empty key and
/// description.
#[derive(Debug, Clone, Copy, PartialEq, Eq, PartialOrd, Ord, Hash)]
pub struct FieldView<'a> {
    pub key: &'a str,
    pub value: &'a Schema,
    pub description: &'a str,
}

impl<'a> FieldView<'a> {
    /// Key, value and description.
    pub open spec fn model(self) -> (Seq<char>, Schema, Seq<char>) {
        (self.key@, *self.value, self.description@)
    }

    /// A view of `value` with an empty key and description.
    pub fn with_value(value: &'a Schema) -> (r: Self)
        ensures
            r.model() == (Seq::<char>::empty(), *value, Seq::<char>::empty()),
    {
        proof {
            reveal_strlit("");
        }
        let r = FieldView { key: "", value, description: "" };
        assert(r.key@ =~= Seq::<char>::empty());
        r
    }
}

impl SchemaField {
    /// This field seen through references.
    pub fn as_view<'a>(&'a self) -> (r: FieldView<'a>)
        ensures
            r.model() == (self.key@, self.value, self.description@),
    {
        FieldView { key: self.key.as_str(), value: &self.value, description: self.description.as_str() }
    }
}

impl<'a> From<FieldView<'a>> for SchemaField {
    /// An owned field: the same key and description, the structure copied.
    fn from(value: FieldView<'a>) -> (r: SchemaField)
        ensures
            r.key@ == value.key@,
            r.description@ == value.description@,
            same_shape(*value.value, r.value),
    {
        SchemaField {
            key: String::from_str(value.key),
            value: clone_value(value.value),
            description: String::from_str(value.description),
        }
    }
}

impl<'a> vstd::std_specs::convert::FromSpecImpl<FieldView<'a>> for SchemaField {
    /// The copy of the structure is alike, not identical: no exact result is
    /// promised beyond the contract of `from`.
    open spec fn obeys_from_spec() -> bool {
        false
    }

    open spec fn from_spec(value: FieldView<'a>) -> SchemaField {
        arbitrary()
    }
}

/// Index of the first field whose key is `k`.
pub open spec fn first_with_key(fields: Seq<SchemaField>, k: Seq<char>) -> Option<int>
    decreases fields.len(),
{
    if fields.len() == 0 {
        None
    } else if fields[0].key@ == k {
        Some(0)
    } else {
        match first_with_key(fields.drop_first(), k) {
            Some(i) => Some(i + 1),
            None => None,
        }
    }
}

proof fn lemma_first_with_key(fields: Seq<SchemaField>, k: Seq<char>, i: int)
    requires
        0 <= i <= fields.len(),
        forall|j: int| 0 <= j < i ==> fields[j].key@ != k,
    ensures
        i < fields.len() && fields[i].key@ == k ==> first_with_key(fields, k) == Some(i),
        i == fields.len() ==> first_with_key(fields, k) is None,
    decreases i,
{
    if i > 0 {
        lemma_first_with_key(fields.drop_first(), k, i - 1);
    }
}

/// The field reached from the field `(key, value, description)` by
/// following `path`: a key steps into the first field of an object with
/// that key, an array step into the array's items (keeping key and
/// description). `None` where a step does not fit the structure.
pub open spec fn walk(
    key: Seq<char>,
    value: Schema,
    description: Seq<char>,
    path: Seq<NodeView>,
) -> Option<(Seq<char>, Schema, Seq<char>)>
    decreases path.len(),
{
    if path.len() == 0 {
        Some((key, value, description))
    } else {
        match path[0] {
            NodeView::Field(k) => match value {
                Schema::Object(fields) => match first_with_key(fields@, k) {
                    Some(i) => walk(
                        fields@[i].key@,
                        fields@[i].value,
                        fields@[i].description@,
                        path.drop_first(),
                    ),
                    None => None,
                },
                _ => None,
            },
            NodeView::Array => match value {
                Schema::Array(child) => walk(key, *child, description, path.drop_first()),
                _ => None,
            },
        }
    }
}

/// A path as characters.
pub open spec fn nodes_view<'a>(path: Seq<Node<'a>>) -> Seq<NodeView> {
    path.map_values(|n: Node<'a>| n@)
}

/// The completions of all the keys of `fields`, in order, each replacing
/// `input`.
pub open spec fn key_completions(fields: Seq<SchemaField>, input: Seq<char>) -> Seq<
    CompletionView,
> {
    fields.map_values(
        |f: SchemaField|
            CompletionView {
                name: f.key@,
                kind: IdentKind::Key,
                len: utf8_len(input),
                description: f.description@,
            },
    )
}

/// The completion of the boolean literal `name` when it starts with `input`.
pub open spec fn bool_completion(name: Seq<char>, input: Seq<char>, description: Seq<char>) -> Seq<
    CompletionView,
> {
    if is_prefix(input, name) {
        seq![
            CompletionView {
                name,
                kind: IdentKind::Bool,
                len: utf8_len(input),
                description,
            },
        ]
    } else {
        seq![]
    }
}

/// The completions offered at `location` by the structure `value`: keys of
/// the object there, or `true` / `false` for a boolean there.
pub open spec fn complete_spec(value: Schema, location: LocationView) -> Seq<CompletionView> {
    match walk(seq![], value, seq![], location.path) {
        None => seq![],
        Some((_, v, description)) => match location.ident {
            IdentView::Key(input) => match v {
                Schema::Object(fields) => key_completions(fields@, input),
                _ => seq![],
            },
            IdentView::Value(input) => match v {
                Schema::Bool => bool_completion(seq!['t', 'r', 'u', 'e'], input, description)
                    + bool_completion(seq!['f', 'a', 'l', 's', 'e'], input, description),
                _ => seq![],
            },
            IdentView::Other => seq![],
        },
    }
}

/// Views of a list of completions.
pub open spec fn completions_view(v: Seq<Completion>) -> Seq<CompletionView> {
    v.map_values(|c: Completion| c@)
}

fn find_field(fields: &Vec<SchemaField>, key: &str) -> (r: Option<usize>)
    ensures
        match r {
            Some(j) => j < fields.len() && first_with_key(fields@, key@) == Some(j as int),
            None => first_with_key(fields@, key@) is None,
        },
{
    let mut j: usize = 0;
    while j < fields.len()
        invariant
            j <= fields.len(),
            forall|i: int| 0 <= i < j ==> fields@[i].key@ != key@,
        decreases fields.len() - j,
    {
        if str_eq(fields[j].key.as_str(), key) {
            proof {
                lemma_first_with_key(fields@, key@, j as int);
            }
            return Some(j);
        }
        j += 1;
    }
    proof {
        lemma_first_with_key(fields@, key@, j as int);
    }
    None
}

fn key_completion(f: &SchemaField, len: usize) -> (c: Completion)
    ensures
        c@ == (CompletionView {
            name: f.key@,
            kind: IdentKind::Key,
            len: len as nat,
            description: f.description@,
        }),
{
    Completion {
        name: f.key.clone(),
        kind: IdentKind::Key,
        len,
        description: f.description.clone(),
    }
}

fn push_bool_completion(
    out: &mut Vec<Completion>,
    name: &str,
    input: &str,
    len: usize,
    description: &str,
)
    requires
        len == utf8_len(input@),
    ensures
        completions_view(final(out)@) == completions_view(old(out)@) + bool_completion(
            name@,
            input@,
            description@,
        ),
{
    let ghost before = out@;
    if starts_with(name, input) {
        out.push(
            Completion {
                name: String::from_str(name),
                kind: IdentKind::Bool,
                len,
                description: String::from_str(description),
            },
        );
    }
    assert(completions_view(out@) =~= completions_view(before) + bool_completion(
        name@,
        input@,
        description@,
    ));
}

impl Schema {
    /// The field reached by following `path` from this value.
    pub fn get_at_path<'a, 'p>(&'a self, path: &[Node<'p>]) -> (r: Option<FieldView<'a>>)
        ensures
            match walk(seq![], *self, seq![], nodes_view(path@)) {
                Some(m) => r matches Some(f) && f.model() == m,
                None => r is None,
            },
    {
        let ghost pv = nodes_view(path@);
        let mut field = FieldView::with_value(self);
        let mut i: usize = 0;
        assert(pv.subrange(0, pv.len() as int) =~= pv);
        while i < path.len()
            invariant
                pv == nodes_view(path@),
                i <= path.len(),
                walk(seq![], *self, seq![], pv) == walk(
                    field.model().0,
                    field.model().1,
                    field.model().2,
                    pv.subrange(i as int, pv.len() as int),
                ),
            decreases path.len() - i,
        {
            let ghost rest = pv.subrange(i as int, pv.len() as int);
            assert(rest.drop_first() =~= pv.subrange(i + 1, pv.len() as int));
            assert(rest[0] == path@[i as int]@);
            match path[i] {
                Node::Field(key) => match field.value {
                    Schema::Object(fields) => match find_field(fields, key) {
                        Some(j) => {
                            let ghost m = field.model();
                            assert(rest[0] == NodeView::Field(key@));
                            assert(m.1 == Schema::Object(*fields));
                            field = fields[j].as_view();
                            assert(walk(m.0, m.1, m.2, rest) == walk(
                                field.model().0,
                                field.model().1,
                                field.model().2,
                                rest.drop_first(),
                            ));
                        },
                        None => {
                            return None;
                        },
                    },
                    _ => {
                        return None;
                    },
                },
                Node::Array => match field.value {
                    Schema::Array(child) => {
                        let ghost m = field.model();
                        field.value = &**child;
                        assert(walk(m.0, m.1, m.2, rest) == walk(
                            field.model().0,
                            field.model().1,
                            field.model().2,
                            rest.drop_first(),
                        ));
                    },
                    _ => {
                        return None;
                    },
                },
            }
            i += 1;
        }
        assert(pv.subrange(i as int, pv.len() as int) =~= Seq::<NodeView>::empty());
        Some(field)
    }

    /// The completions for the end of `location`.
    pub fn complete_by_location(&self, location: &Location) -> (r: Vec<Completion>)
        ensures
            completions_view(r@) == complete_spec(*self, location@),
    {
        let field = match self.get_at_path(location.path.as_slice()) {
            Some(field) => field,
            None => {
                let r: Vec<Completion> = Vec::new();
                assert(completions_view(r@) =~= Seq::<CompletionView>::empty());
                return r;
            },
        };
        let mut r: Vec<Completion> = Vec::new();
        assert(completions_view(r@) =~= Seq::<CompletionView>::empty());
        match location.ident {
            Ident::Key(input) => match field.value {
                Schema::Object(fields) => {
                    let len = byte_len(input);
                    let mut j: usize = 0;
                    assert(fields@.take(0) =~= Seq::<SchemaField>::empty());
                    while j < fields.len()
                        invariant
                            len == utf8_len(input@),
                            j <= fields.len(),
                            completions_view(r@) == key_completions(fields@.take(j as int), input@),
                        decreases fields.len() - j,
                    {
                        let ghost before = r@;
                        r.push(key_completion(&fields[j], len));
                        assert(fields@.take(j + 1) =~= fields@.take(j as int).push(
                            fields@[j as int],
                        ));
                        assert(completions_view(r@) =~= completions_view(before).push(
                            r@.last()@,
                        ));
                        assert(completions_view(r@) =~= key_completions(
                            fields@.take(j + 1),
                            input@,
                        ));
                        j += 1;
                    }
                    assert(fields@.take(j as int) =~= fields@);
                },
                _ => {},
            },
            Ident::Value(input) => match field.value {
                Schema::Bool => {
                    let len = byte_len(input);
                    proof {
                        reveal_strlit("true");
                        reveal_strlit("false");
                    }
                    push_bool_completion(&mut r, "true", input, len, field.description);
                    push_bool_completion(&mut r, "false", input, len, field.description);
                    assert("true"@ =~= seq!['t', 'r', 'u', 'e']);
                    assert("false"@ =~= seq!['f', 'a', 'l', 's', 'e']);
                },
                _ => {},
            },
            Ident::Other => {},
        }
        r
    }

    /// Leniently parses JSON text and offers completions for its end.
    pub fn complete(&self, s: &str) -> (r: Vec<Completion>)
        ensures
            completions_view(r@) == complete_spec(*self, locate_spec(s@)),
    {
        self.complete_by_location(&Location::locate(s))
    }

    /// This structure with the fields of `base` appended, when both are
    /// objects; otherwise this structure unchanged.
    pub fn inherit(self, base: &Self) -> (r: Self)
        ensures
            match (self, *base) {
                (Schema::Object(child), Schema::Object(parent)) => r matches Schema::Object(fields) && {
                    &&& fields@.len() == child@.len() + parent@.len()
                    &&& forall|i: int| 0 <= i < child@.len() ==> #[trigger] fields@[i] == child@[i]
                    &&& forall|i: int|
                        0 <= i < parent@.len() ==> same_field(
                            parent@[i],
                            #[trigger] fields@[child@.len() + i],
                        )
                },
                _ => r == self,
            },
    {
        match self {
            Schema::Object(mut child) => match base {
                Schema::Object(parent) => {
                    let ghost before = child@;
                    child.extend_from_slice(parent.as_slice());
                    proof {
                        assert forall|i: int| 0 <= i < parent@.len() implies same_field(
                            parent@[i],
                            #[trigger] child@[before.len() + i],
                        ) by {
                            assert(cloned::<SchemaField>(parent@[i], child@[before.len() + i]));
                            lemma_same_shape_refl(parent@[i].value);
                        }
                    }
                    Schema::Object(child)
                },
                _ => Schema::Object(child),
            },
            other => other,
        }
    }
}

/// Column where a completion's replacement starts: `len` code units before
/// `character`, or the start of the line.
pub fn replace_start(character: u32, len: usize) -> (r: u32)
    ensures
        r == if (len as u32) >= character {
            0
        } else {
            (character - (len as u32)) as u32
        },
{
    #[verifier::truncate]
    let len = len as u32;
    if len >= character {
        0
    } else {
        character - len
    }
}

/// Types that can describe their JSON structure.
pub trait ToJsonSchema {
    fn schema() -> Schema;

    fn to_schema(&self) -> Schema {
        Self::schema()
    }
}

} // verus!
