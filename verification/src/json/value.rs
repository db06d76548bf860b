//! JSON structure descriptions and the completions they offer at the end
//! of partial JSON text.

use vstd::prelude::*;
use vstd::string::StringExecFns;
use crate::text::{str_eq, starts_with, is_prefix, utf8_len, byte_len};
use crate::json::locate::{Location, Node, Ident, NodeView, IdentView, LocationView, locate_spec};

verus! {

broadcast use vstd::string::group_string_axioms;

/// Structure of a JSON value.
#[derive(Debug, PartialEq, Eq, PartialOrd, Ord, Hash)]
pub enum Value {
    Object(Vec<Field>),
    Array(Box<Value>),
    String,
    Number,
    Bool,
}

impl Default for Value {
    /// The empty object.
    fn default() -> (r: Self)
        ensures
            r matches Value::Object(fields) && fields@.len() == 0,
    {
        Value::Object(Vec::new())
    }
}

/// A named field of an object.
#[derive(Debug, PartialEq, Eq, PartialOrd, Ord, Hash)]
pub struct Field {
    pub key: String,
    pub value: Value,
    /// Description shown with the completion.
    pub description: String,
}

/// Two structures are alike all the way down: the same kinds, objects with
/// fields of the same keys, descriptions and structures, in the same order.
pub open spec fn same_shape(a: Value, b: Value) -> bool
    decreases a, 0nat,
{
    match a {
        Value::Object(x) => match b {
            Value::Object(y) => same_fields(x@, y@),
            _ => false,
        },
        Value::Array(x) => match b {
            Value::Array(y) => same_shape(*x, *y),
            _ => false,
        },
        Value::String => b is String,
        Value::Number => b is Number,
        Value::Bool => b is Bool,
    }
}

/// Two lists of fields are alike, field by field: the same keys,
/// descriptions and structures, in the same order.
pub open spec fn same_fields(x: Seq<Field>, y: Seq<Field>) -> bool
    decreases x, x.len(),
{
    if x.len() == 0 {
        y.len() == 0
    } else {
        &&& y.len() == x.len()
        &&& same_fields(x.drop_last(), y.drop_last())
        &&& same_label(x.last(), y.last())
        &&& same_shape(x.last().value, y.last().value)
    }
}

/// Two fields have the same key, description and structure.
pub open spec fn same_field(a: Field, b: Field) -> bool {
    same_label(a, b) && same_shape(a.value, b.value)
}

/// Every structure is alike itself.
pub proof fn lemma_same_shape_refl(a: Value)
    ensures
        same_shape(a, a),
    decreases a, 0nat,
{
    match a {
        Value::Object(x) => {
            lemma_same_fields_refl(x@);
        },
        Value::Array(x) => {
            lemma_same_shape_refl(*x);
        },
        _ => {},
    }
}

proof fn lemma_same_fields_refl(x: Seq<Field>)
    ensures
        same_fields(x, x),
    decreases x, x.len(),
{
    if x.len() > 0 {
        assert(decreases_to!(x => x.last()));
        lemma_same_shape_refl(x.last().value);
        lemma_same_fields_refl(x.drop_last());
    }
}

/// Two fields have the same key and description.
pub open spec fn same_label(a: Field, b: Field) -> bool {
    a.key@ == b.key@ && a.description@ == b.description@
}

/// A copy of the structure `v`.
fn clone_value(v: &Value) -> (r: Value)
    ensures
        same_shape(*v, r),
    decreases v,
{
    match v {
        Value::Object(fields) => {
            let mut out: Vec<Field> = Vec::new();
            let mut i: usize = 0;
            while i < fields.len()
                invariant
                    *v == Value::Object(*fields),
                    i <= fields.len(),
                    out.len() == i,
                    same_fields(fields@.take(i as int), out@),
                decreases fields.len() - i,
            {
                let f = &fields[i];
                proof {
                    assert(decreases_to!(*v => v->Object_0));
                    assert(decreases_to!(v->Object_0 => fields@));
                    assert(decreases_to!(fields@ => fields@[i as int]));
                    assert(decreases_to!(fields@[i as int] => fields@[i as int].value));
                }
                let ghost before = out@;
                out.push(
                    Field {
                        key: f.key.clone(),
                        value: clone_value(&f.value),
                        description: f.description.clone(),
                    },
                );
                assert(fields@.take(i + 1).drop_last() =~= fields@.take(i as int));
                assert(out@.drop_last() =~= before);
                i += 1;
            }
            let r = Value::Object(out);
            assert(fields@.take(fields@.len() as int) =~= fields@);
            r
        },
        Value::Array(child) => Value::Array(Box::new(clone_value(child))),
        Value::String => Value::String,
        Value::Number => Value::Number,
        Value::Bool => Value::Bool,
    }
}

impl Clone for Value {
    /// A copy of this structure, alike all the way down.
    fn clone(&self) -> (r: Self)
        ensures
            same_shape(*self, r),
    {
        clone_value(self)
    }
}

impl Clone for Field {
    /// A copy of this field: the same key, description and structure.
    fn clone(&self) -> (r: Self)
        ensures
            same_label(*self, r),
            same_shape(self.value, r.value),
    {
        Field {
            key: self.key.clone(),
            value: clone_value(&self.value),
            description: self.description.clone(),
        }
    }
}

/// Kind of a completion.
#[derive(Debug, Clone, Copy, PartialEq, Eq, PartialOrd, Ord, Hash)]
pub enum IdentKind {
    Key,
    String,
    Number,
    Bool,
}

/// A completion for the end of partial JSON text: `len` bytes before the
/// end are replaced; `text` is what is inserted, the cursor going between
/// its pieces.
#[derive(Debug, Clone, PartialEq, Eq, PartialOrd, Ord, Hash)]
pub struct Completion {
    pub name: String,
    pub kind: IdentKind,
    pub len: usize,
    pub text: Vec<String>,
    pub description: String,
}

/// A completion as characters.
pub struct CompletionView {
    pub name: Seq<char>,
    pub kind: IdentKind,
    pub len: nat,
    pub text: Seq<Seq<char>>,
    pub description: Seq<char>,
}

impl View for Completion {
    type V = CompletionView;

    open spec fn view(&self) -> CompletionView {
        CompletionView {
            name: self.name@,
            kind: self.kind,
            len: self.len as nat,
            text: self.text@.map_values(|t: String| t@),
            description: self.description@,
        }
    }
}

/// A field seen through references; the root value has an empty key and
/// description.
#[derive(Debug, Clone, Copy, PartialEq, Eq, PartialOrd, Ord, Hash)]
pub struct FieldView<'a> {
    pub key: &'a str,
    pub value: &'a Value,
    pub description: &'a str,
}

impl<'a> FieldView<'a> {
    /// Key, value and description.
    pub open spec fn model(self) -> (Seq<char>, Value, Seq<char>) {
        (self.key@, *self.value, self.description@)
    }

    /// A view of `value` with an empty key and description.
    pub fn with_value(value: &'a Value) -> (r: Self)
        ensures
            r.model() == (Seq::<char>::empty(), *value, Seq::<char>::empty()),
    {
        proof {
            reveal_strlit("");
        }
        let r = FieldView { key: "", value, description: "" };
        assert(r.key@ =~= Seq::<char>::empty());
        r
    }
}

impl Field {
    /// This field seen through references.
    pub fn as_view<'a>(&'a self) -> (r: FieldView<'a>)
        ensures
            r.model() == (self.key@, self.value, self.description@),
    {
        FieldView { key: self.key.as_str(), value: &self.value, description: self.description.as_str() }
    }
}

impl<'a> From<FieldView<'a>> for Field {
    /// An owned field: the same key and description, the structure copied.
    fn from(value: FieldView<'a>) -> (r: Field)
        ensures
            r.key@ == value.key@,
            r.description@ == value.description@,
            same_shape(*value.value, r.value),
    {
        Field {
            key: String::from_str(value.key),
            value: clone_value(value.value),
            description: String::from_str(value.description),
        }
    }
}

impl<'a> vstd::std_specs::convert::FromSpecImpl<FieldView<'a>> for Field {
    /// The copy of the structure is alike, not identical: no exact result is
    /// promised beyond the contract of `from`.
    open spec fn obeys_from_spec() -> bool {
        false
    }

    open spec fn from_spec(value: FieldView<'a>) -> Field {
        arbitrary()
    }
}

/// Index of the first field whose key is `k`.
pub open spec fn first_with_key(fields: Seq<Field>, k: Seq<char>) -> Option<int>
    decreases fields.len(),
{
    if fields.len() == 0 {
        None
    } else if fields[0].key@ == k {
        Some(0)
    } else {
        match first_with_key(fields.drop_first(), k) {
            Some(i) => Some(i + 1),
            None => None,
        }
    }
}

proof fn lemma_first_with_key(fields: Seq<Field>, k: Seq<char>, i: int)
    requires
        0 <= i <= fields.len(),
        forall|j: int| 0 <= j < i ==> fields[j].key@ != k,
    ensures
        i < fields.len() && fields[i].key@ == k ==> first_with_key(fields, k) == Some(i),
        i == fields.len() ==> first_with_key(fields, k) is None,
    decreases i,
{
    if i > 0 {
        lemma_first_with_key(fields.drop_first(), k, i - 1);
    }
}

/// The field reached from the field `(key, value, description)` by
/// following `path`: a key steps into the first field of an object with
/// that key, an array step into the array's items (keeping key and
/// description). `None` where a step does not fit the structure.
pub open spec fn walk(
    key: Seq<char>,
    value: Value,
    description: Seq<char>,
    path: Seq<NodeView>,
) -> Option<(Seq<char>, Value, Seq<char>)>
    decreases path.len(),
{
    if path.len() == 0 {
        Some((key, value, description))
    } else {
        match path[0] {
            NodeView::Field(k) => match value {
                Value::Object(fields) => match first_with_key(fields@, k) {
                    Some(i) => walk(
                        fields@[i].key@,
                        fields@[i].value,
                        fields@[i].description@,
                        path.drop_first(),
                    ),
                    None => None,
                },
                _ => None,
            },
            NodeView::Array => match value {
                Value::Array(child) => walk(key, *child, description, path.drop_first()),
                _ => None,
            },
        }
    }
}

/// A path as characters.
pub open spec fn nodes_view<'a>(path: Seq<Node<'a>>) -> Seq<NodeView> {
    path.map_values(|n: Node<'a>| n@)
}

/// The text inserted to complete the key of `f`: the key, its closing
/// quote and colon, and the opening and closing brackets or quotes that its
/// value needs.
pub open spec fn key_text(f: Field) -> Seq<Seq<char>> {
    let k = f.key@;
    match f.value {
        Value::Object(_) => seq![k + seq!['"', ':', ' ', '{'], seq!['}']],
        Value::Array(_) => seq![k + seq!['"', ':', ' ', '['], seq![']']],
        Value::String => seq![k + seq!['"', ':', ' ', '"'], seq!['"']],
        _ => seq![k + seq!['"', ':', ' ']],
    }
}

/// The completions of the keys of `fields` that start with `input`, in order.
pub open spec fn key_completions(fields: Seq<Field>, input: Seq<char>) -> Seq<CompletionView>
    decreases fields.len(),
{
    if fields.len() == 0 {
        seq![]
    } else {
        let f = fields.last();
        key_completions(fields.drop_last(), input) + if is_prefix(input, f.key@) {
            seq![
                CompletionView {
                    name: f.key@,
                    kind: IdentKind::Key,
                    len: utf8_len(input),
                    text: key_text(f),
                    description: f.description@,
                },
            ]
        } else {
            seq![]
        }
    }
}

/// The completion of the boolean literal `name` when it starts with `input`.
pub open spec fn bool_completion(name: Seq<char>, input: Seq<char>, description: Seq<char>) -> Seq<
    CompletionView,
> {
    if is_prefix(input, name) {
        seq![
            CompletionView {
                name,
                kind: IdentKind::Bool,
                len: utf8_len(input),
                text: seq![name],
                description,
            },
        ]
    } else {
        seq![]
    }
}

/// The completions offered at `location` by the structure `value`: keys of
/// the object there, or `true` / `false` for a boolean there.
pub open spec fn complete_spec(value: Value, location: LocationView) -> Seq<CompletionView> {
    match walk(seq![], value, seq![], location.path) {
        None => seq![],
        Some((_, v, description)) => match location.ident {
            IdentView::Key(input) => match v {
                Value::Object(fields) => key_completions(fields@, input),
                _ => seq![],
            },
            IdentView::Value(input) => match v {
                Value::Bool => bool_completion(seq!['t', 'r', 'u', 'e'], input, description)
                    + bool_completion(seq!['f', 'a', 'l', 's', 'e'], input, description),
                _ => seq![],
            },
            IdentView::Other => seq![],
        },
    }
}

/// Views of a list of completions.
pub open spec fn completions_view(v: Seq<Completion>) -> Seq<CompletionView> {
    v.map_values(|c: Completion| c@)
}

fn find_field(fields: &Vec<Field>, key: &str) -> (r: Option<usize>)
    ensures
        match r {
            Some(j) => j < fields.len() && first_with_key(fields@, key@) == Some(j as int),
            None => first_with_key(fields@, key@) is None,
        },
{
    let mut j: usize = 0;
    while j < fields.len()
        invariant
            j <= fields.len(),
            forall|i: int| 0 <= i < j ==> fields@[i].key@ != key@,
        decreases fields.len() - j,
    {
        if str_eq(fields[j].key.as_str(), key) {
            proof {
                lemma_first_with_key(fields@, key@, j as int);
            }
            return Some(j);
        }
        j += 1;
    }
    proof {
        lemma_first_with_key(fields@, key@, j as int);
    }
    None
}

fn key_completion(f: &Field, len: usize, Ghost(input): Ghost<Seq<char>>) -> (c: Completion)
    requires
        len == utf8_len(input),
    ensures
        c@ == (CompletionView {
            name: f.key@,
            kind: IdentKind::Key,
            len: utf8_len(input),
            text: key_text(*f),
            description: f.description@,
        }),
{
    let mut head = f.key.clone();
    let text = match &f.value {
        Value::Object(_) => {
            proof {
                reveal_strlit("\": {");
                reveal_strlit("}");
                assert("\": {"@ =~= seq!['"', ':', ' ', '{']);
                assert("}"@ =~= seq!['}']);
            }
            head.append("\": {");
            vec![head, String::from_str("}")]
        },
        Value::Array(_) => {
            proof {
                reveal_strlit("\": [");
                reveal_strlit("]");
                assert("\": ["@ =~= seq!['"', ':', ' ', '[']);
                assert("]"@ =~= seq![']']);
            }
            head.append("\": [");
            vec![head, String::from_str("]")]
        },
        Value::String => {
            proof {
                reveal_strlit("\": \"");
                reveal_strlit("\"");
                assert("\": \""@ =~= seq!['"', ':', ' ', '"']);
                assert("\""@ =~= seq!['"']);
            }
            head.append("\": \"");
            vec![head, String::from_str("\"")]
        },
        _ => {
            proof {
                reveal_strlit("\": ");
                assert("\": "@ =~= seq!['"', ':', ' ']);
            }
            head.append("\": ");
            vec![head]
        },
    };
    let c = Completion {
        name: f.key.clone(),
        kind: IdentKind::Key,
        len,
        text,
        description: f.description.clone(),
    };
    assert(c@.text =~= key_text(*f));
    c
}

fn push_bool_completion(
    out: &mut Vec<Completion>,
    name: &str,
    input: &str,
    len: usize,
    description: &str,
)
    requires
        len == utf8_len(input@),
    ensures
        completions_view(final(out)@) == completions_view(old(out)@) + bool_completion(
            name@,
            input@,
            description@,
        ),
{
    let ghost before = out@;
    if starts_with(name, input) {
        out.push(
            Completion {
                name: String::from_str(name),
                kind: IdentKind::Bool,
                len,
                text: vec![String::from_str(name)],
                description: String::from_str(description),
            },
        );
        assert(out@.last()@.text =~= seq![name@]);
    }
    assert(completions_view(out@) =~= completions_view(before) + bool_completion(
        name@,
        input@,
        description@,
    ));
}

impl Value {
    /// The field reached by following `path` from this value.
    pub fn get_at_path<'a, 'p>(&'a self, path: &[Node<'p>]) -> (r: Option<FieldView<'a>>)
        ensures
            match walk(seq![], *self, seq![], nodes_view(path@)) {
                Some(m) => r matches Some(f) && f.model() == m,
                None => r is None,
            },
    {
        let ghost pv = nodes_view(path@);
        let mut field = FieldView::with_value(self);
        let mut i: usize = 0;
        assert(pv.subrange(0, pv.len() as int) =~= pv);
        while i < path.len()
            invariant
                pv == nodes_view(path@),
                i <= path.len(),
                walk(seq![], *self, seq![], pv) == walk(
                    field.model().0,
                    field.model().1,
                    field.model().2,
                    pv.subrange(i as int, pv.len() as int),
                ),
            decreases path.len() - i,
        {
            let ghost rest = pv.subrange(i as int, pv.len() as int);
            assert(rest.drop_first() =~= pv.subrange(i + 1, pv.len() as int));
            assert(rest[0] == path@[i as int]@);
            match path[i] {
                Node::Field(key) => match field.value {
                    Value::Object(fields) => match find_field(fields, key) {
                        Some(j) => {
                            let ghost m = field.model();
                            assert(rest[0] == NodeView::Field(key@));
                            assert(m.1 == Value::Object(*fields));
                            field = fields[j].as_view();
                            assert(walk(m.0, m.1, m.2, rest) == walk(
                                field.model().0,
                                field.model().1,
                                field.model().2,
                                rest.drop_first(),
                            ));
                        },
                        None => {
                            return None;
                        },
                    },
                    _ => {
                        return None;
                    },
                },
                Node::Array => match field.value {
                    Value::Array(child) => {
                        let ghost m = field.model();
                        field.value = &**child;
                        assert(walk(m.0, m.1, m.2, rest) == walk(
                            field.model().0,
                            field.model().1,
                            field.model().2,
                            rest.drop_first(),
                        ));
                    },
                    _ => {
                        return None;
                    },
                },
            }
            i += 1;
        }
        assert(pv.subrange(i as int, pv.len() as int) =~= Seq::<NodeView>::empty());
        Some(field)
    }

    /// The completions for the end of `location`.
    pub fn complete_by_location(&self, location: &Location) -> (r: Vec<Completion>)
        ensures
            completions_view(r@) == complete_spec(*self, location@),
    {
        let field = match self.get_at_path(location.path.as_slice()) {
            Some(field) => field,
            None => {
                let r: Vec<Completion> = Vec::new();
                assert(completions_view(r@) =~= Seq::<CompletionView>::empty());
                return r;
            },
        };
        let mut r: Vec<Completion> = Vec::new();
        assert(completions_view(r@) =~= Seq::<CompletionView>::empty());
        match location.ident {
            Ident::Key(input) => match field.value {
                Value::Object(fields) => {
                    let len = byte_len(input);
                    let mut j: usize = 0;
                    assert(fields@.take(0) =~= Seq::<Field>::empty());
                    while j < fields.len()
                        invariant
                            len == utf8_len(input@),
                            j <= fields.len(),
                            completions_view(r@) == key_completions(fields@.take(j as int), input@),
                        decreases fields.len() - j,
                    {
                        let ghost before = r@;
                        assert(fields@.take(j + 1).drop_last() =~= fields@.take(j as int));
                        if starts_with(fields[j].key.as_str(), input) {
                            r.push(key_completion(&fields[j], len, Ghost(input@)));
                        }
                        assert(completions_view(r@) =~= key_completions(
                            fields@.take(j + 1),
                            input@,
                        ));
                        j += 1;
                    }
                    assert(fields@.take(j as int) =~= fields@);
                },
                _ => {},
            },
            Ident::Value(input) => match field.value {
                Value::Bool => {
                    let len = byte_len(input);
                    proof {
                        reveal_strlit("true");
                        reveal_strlit("false");
                    }
                    push_bool_completion(&mut r, "true", input, len, field.description);
                    push_bool_completion(&mut r, "false", input, len, field.description);
                    assert("true"@ =~= seq!['t', 'r', 'u', 'e']);
                    assert("false"@ =~= seq!['f', 'a', 'l', 's', 'e']);
                },
                _ => {},
            },
            Ident::Other => {},
        }
        r
    }

    /// Leniently parses JSON text and offers completions for its end.
    pub fn complete(&self, s: &str) -> (r: Vec<Completion>)
        ensures
            completions_view(r@) == complete_spec(*self, locate_spec(s@)),
    {
        self.complete_by_location(&Location::locate(s))
    }

    /// This structure with the fields of `base` appended, when both are
    /// objects; otherwise this structure unchanged.
    pub fn inherit(self, base: &Self) -> (r: Self)
        ensures
            match (self, *base) {
                (Value::Object(child), Value::Object(parent)) => r matches Value::Object(fields) && {
                    &&& fields@.len() == child@.len() + parent@.len()
                    &&& forall|i: int| 0 <= i < child@.len() ==> #[trigger] fields@[i] == child@[i]
                    &&& forall|i: int|
                        0 <= i < parent@.len() ==> same_field(
                            parent@[i],
                            #[trigger] fields@[child@.len() + i],
                        )
                },
                _ => r == self,
            },
    {
        match self {
            Value::Object(mut child) => match base {
                Value::Object(parent) => {
                    let ghost before = child@;
                    child.extend_from_slice(parent.as_slice());
                    proof {
                        assert forall|i: int| 0 <= i < parent@.len() implies same_field(
                            parent@[i],
                            #[trigger] child@[before.len() + i],
                        ) by {
                            assert(cloned::<Field>(parent@[i], child@[before.len() + i]));
                            lemma_same_shape_refl(parent@[i].value);
                        }
                    }
                    Value::Object(child)
                },
                _ => Value::Object(child),
            },
            other => other,
        }
    }
}

/// Types that can describe their JSON structure.
pub trait ToJsonSchema {
    fn schema() -> Value;

    fn to_schema(&self) -> Value {
        Self::schema()
    }
}

/// Completing the key of a field writes the key, its closing quote and a
/// colon, then opens what the value needs, the matching closer coming as
/// the second part: `{` and `}` for an object, `[` and `]` for an array,
/// two quotes for a string, nothing more for a number or a boolean. Every
/// field whose key begins with the input is offered so.
pub proof fn law_key_completion_opens_value(fields: Seq<Field>, input: Seq<char>, i: int)
    requires
        0 <= i < fields.len(),
        is_prefix(input, fields[i].key@),
    ensures
        ({
            let f = fields[i];
            let k = f.key@;
            let head = k + seq!['"', ':', ' '];
            let text = match f.value {
                Value::Object(_) => seq![head.push('{'), seq!['}']],
                Value::Array(_) => seq![head.push('['), seq![']']],
                Value::String => seq![head.push('"'), seq!['"']],
                _ => seq![head],
            };
            key_completions(fields, input).contains(
                CompletionView {
                    name: k,
                    kind: IdentKind::Key,
                    len: utf8_len(input),
                    text,
                    description: f.description@,
                },
            )
        }),
    decreases fields.len(),
{
    let f = fields[i];
    let k = f.key@;
    let head = k + seq!['"', ':', ' '];
    assert(head.push('{') =~= k + seq!['"', ':', ' ', '{']);
    assert(head.push('[') =~= k + seq!['"', ':', ' ', '[']);
    assert(head.push('"') =~= k + seq!['"', ':', ' ', '"']);
    assert(head =~= k + seq!['"', ':', ' ']);
    let prev = key_completions(fields.drop_last(), input);
    let all = key_completions(fields, input);
    if i < fields.len() - 1 {
        assert(fields.drop_last()[i] == f);
        law_key_completion_opens_value(fields.drop_last(), input, i);
        let c = choose|c: CompletionView| prev.contains(c) && c.name == k && c.kind == IdentKind::Key
            && c.len == utf8_len(input) && c.description == f.description@ && c.text == (match f.value {
            Value::Object(_) => seq![head.push('{'), seq!['}']],
            Value::Array(_) => seq![head.push('['), seq![']']],
            Value::String => seq![head.push('"'), seq!['"']],
            _ => seq![head],
        });
        let j = choose|j: int| 0 <= j < prev.len() && prev[j] == c;
        assert(all[j] == prev[j]);
    } else {
        assert(fields.last() == f);
        assert(all[prev.len() as int] == CompletionView {
            name: k,
            kind: IdentKind::Key,
            len: utf8_len(input),
            text: key_text(f),
            description: f.description@,
        });
    }
}

} // verus!
