//! The type catalog: fields, struct definitions, and the symbol set built
//! from header and usage input.
//!
//! A `Field` stores the declared type token as `name` and the identifier as
//! `value`. Top-level variable declarations reuse the same shape with the
//! struct-type token as `name` and the variable identifier as `value`:
//! lookups search by `value` and read back `name`.

use vstd::prelude::*;

verus! {

/// Mathematical image of a `Field`: its two string tokens.
#[verifier::ext_equal]
pub ghost struct FieldView {
    pub name: Seq<char>,
    pub value: Seq<char>,
}

/// Mathematical image of a `StructDefinition`.
#[verifier::ext_equal]
pub ghost struct StructDefView {
    pub name: Seq<char>,
    pub fields: Seq<FieldView>,
}

/// Mathematical image of a `StructSet`: the struct definitions from header
/// input and the top-level variable declarations from usage input.
#[verifier::ext_equal]
pub ghost struct StructSetView {
    pub definitions: Seq<StructDefView>,
    pub vars: Seq<FieldView>,
}

/// A single named, typed attribute of a struct definition.
#[derive(Clone, Debug, PartialEq, Eq)]
pub struct Field {
    name: String,
    value: String,
}

impl View for Field {
    type V = FieldView;

    closed spec fn view(&self) -> FieldView {
        FieldView { name: self.name@, value: self.value@ }
    }
}

/// The views of a sequence of fields, in order.
pub open spec fn fields_view(v: Seq<Field>) -> Seq<FieldView> {
    Seq::new(v.len(), |i: int| v[i]@)
}

/// The views of a sequence of struct definitions, in order.
pub open spec fn defs_view(v: Seq<StructDefinition>) -> Seq<StructDefView> {
    Seq::new(v.len(), |i: int| v[i]@)
}

/// The first field of `fields` whose `value` equals `v`, if any.
pub open spec fn find_by_value(fields: Seq<FieldView>, v: Seq<char>) -> Option<FieldView>
    decreases fields.len(),
{
    if fields.len() == 0 {
        None
    } else if fields[0].value == v {
        Some(fields[0])
    } else {
        find_by_value(fields.drop_first(), v)
    }
}

/// The first definition of `defs` whose name equals `name`, if any.
pub open spec fn find_def(defs: Seq<StructDefView>, name: Seq<char>) -> Option<StructDefView>
    decreases defs.len(),
{
    if defs.len() == 0 {
        None
    } else if defs[0].name == name {
        Some(defs[0])
    } else {
        find_def(defs.drop_first(), name)
    }
}

/// The declared type of the field named `field_value` inside the definition
/// named `def_name`, if both lookups succeed.
pub open spec fn lookup_in_def(
    defs: Seq<StructDefView>,
    def_name: Seq<char>,
    field_value: Seq<char>,
) -> Option<Seq<char>> {
    match find_def(defs, def_name) {
        Some(d) => match find_by_value(d.fields, field_value) {
            Some(f) => Some(f.name),
            None => None,
        },
        None => None,
    }
}

proof fn lemma_find_by_value_skip(fields: Seq<FieldView>, v: Seq<char>, i: int)
    requires
        0 <= i < fields.len(),
        fields[i].value != v,
    ensures
        find_by_value(fields.skip(i), v) == find_by_value(fields.skip(i + 1), v),
{
    assert(fields.skip(i).len() > 0);
    assert(fields.skip(i)[0] == fields[i]);
    assert(fields.skip(i).drop_first() =~= fields.skip(i + 1));
}

proof fn lemma_find_def_skip(defs: Seq<StructDefView>, name: Seq<char>, i: int)
    requires
        0 <= i < defs.len(),
        defs[i].name != name,
    ensures
        find_def(defs.skip(i), name) == find_def(defs.skip(i + 1), name),
{
    assert(defs.skip(i).len() > 0);
    assert(defs.skip(i)[0] == defs[i]);
    assert(defs.skip(i).drop_first() =~= defs.skip(i + 1));
}

/// Looking a field up by its declared identifier returns that very field —
/// in particular its declared type — provided no earlier field in the same
/// definition reuses the identifier.
pub proof fn lemma_lookup_declared_field(fields: Seq<FieldView>, k: int)
    requires
        0 <= k < fields.len(),
        forall|j: int| 0 <= j < k ==> fields[j].value != fields[k].value,
    ensures
        find_by_value(fields, fields[k].value) == Some(fields[k]),
    decreases k,
{
    if k == 0 {
        assert(fields[0].value == fields[k].value);
    } else {
        assert(fields[0].value != fields[k].value);
        lemma_lookup_declared_field(fields.drop_first(), k - 1);
        assert(fields.drop_first()[k - 1] == fields[k]);
    }
}

impl Field {
    /// Builds a field from a type token, an identifier, and an optional
    /// bracketed array-size suffix, which is appended to the stored name.
    pub fn new(name: String, value: String, array_size: Option<&str>) -> (r: Field)
        ensures
            r@.value == value@,
            (match array_size {
                Some(size) => r@.name == name@ + size@,
                None => r@.name == name@,
            }),
    {
        let name = match array_size {
            Some(size) => name.concat(size),
            None => name,
        };
        Field { name, value }
    }

    /// The stored name: the declared type token, array suffix included.
    pub fn get_name(&self) -> (r: &str)
        ensures
            r@ == self@.name,
    {
        self.name.as_str()
    }

    /// The stored value: the declared identifier token.
    pub fn get_value(&self) -> (r: &str)
        ensures
            r@ == self@.value,
    {
        self.value.as_str()
    }
}

/// An ordered collection of fields under a struct name.
#[derive(Clone, Debug, PartialEq, Eq)]
pub struct StructDefinition {
    name: String,
    fields: Vec<Field>,
}

impl View for StructDefinition {
    type V = StructDefView;

    closed spec fn view(&self) -> StructDefView {
        StructDefView { name: self.name@, fields: fields_view(self.fields@) }
    }
}

impl StructDefinition {
    /// A definition holding one initial field.
    pub fn new(name: &str, field: Field) -> (r: StructDefinition)
        ensures
            r@.name == name@,
            r@.fields == seq![field@],
    {
        let r = StructDefinition { name: name.to_owned(), fields: vec![field] };
        proof {
            assert(r@.fields =~= seq![field@]);
        }
        r
    }

    /// A definition with a name and no fields yet.
    pub(crate) fn empty(name: String) -> (r: StructDefinition)
        ensures
            r@.name == name@,
            r@.fields == Seq::<FieldView>::empty(),
    {
        let r = StructDefinition { name, fields: Vec::new() };
        proof {
            assert(r@.fields =~= Seq::<FieldView>::empty());
        }
        r
    }

    /// Appends a field, keeping declaration order.
    pub fn add_field(&mut self, field: Field)
        ensures
            final (self)@.name == old(self)@.name,
            final (self)@.fields == old(self)@.fields.push(field@),
    {
        self.fields.push(field);
        proof {
            assert(final (self)@.fields =~= old(self)@.fields.push(field@));
        }
    }

    /// The definition's name.
    pub fn name(&self) -> (r: &str)
        ensures
            r@ == self@.name,
    {
        self.name.as_str()
    }

    /// The fields, in declaration order.
    pub fn fields(&self) -> (r: &Vec<Field>)
        ensures
            fields_view(r@) == self@.fields,
    {
        &self.fields
    }

    /// The first field whose identifier equals `value`, if any.
    pub fn find_field_by_value(&self, value: &str) -> (r: Option<&Field>)
        ensures
            (match r {
                Some(f) => find_by_value(self@.fields, value@) == Some(f@),
                None => find_by_value(self@.fields, value@) is None,
            }),
    {
        find_in_fields(&self.fields, value)
    }
}

/// The first field of `fields` whose identifier equals `value`, if any.
pub(crate) fn find_in_fields<'a>(fields: &'a Vec<Field>, value: &str) -> (r: Option<&'a Field>)
    ensures
        (match r {
            Some(f) => find_by_value(fields_view(fields@), value@) == Some(f@),
            None => find_by_value(fields_view(fields@), value@) is None,
        }),
{
    let ghost fv = fields_view(fields@);
    proof {
        assert(fv.skip(0) =~= fv);
    }
    let mut i: usize = 0;
    while i < fields.len()
        invariant
            0 <= i <= fields.len(),
            fv == fields_view(fields@),
            fv.len() == fields.len(),
            find_by_value(fv, value@) == find_by_value(fv.skip(i as int), value@),
        decreases fields.len() - i,
    {
        if crate::text::str_eq(fields[i].get_value(), value) {
            proof {
                assert(fv.skip(i as int)[0] == fv[i as int]);
            }
            return Some(&fields[i]);
        }
        proof {
            lemma_find_by_value_skip(fv, value@, i as int);
        }
        i += 1;
    }
    proof {
        assert(fv.skip(i as int) =~= Seq::<FieldView>::empty());
    }
    None
}

/// The aggregate of all struct definitions found in header input, plus the
/// flat list of top-level variable declarations found in usage input.
#[derive(Clone, Debug, PartialEq, Eq)]
pub struct StructSet {
    definitions: Vec<StructDefinition>,
    fields: Vec<Field>,
}

impl View for StructSet {
    type V = StructSetView;

    closed spec fn view(&self) -> StructSetView {
        StructSetView { definitions: defs_view(self.definitions@), vars: fields_view(self.fields@) }
    }
}

impl StructSet {
    /// An empty catalog.
    pub fn new() -> (r: StructSet)
        ensures
            r@.definitions == Seq::<StructDefView>::empty(),
            r@.vars == Seq::<FieldView>::empty(),
    {
        let r = StructSet { definitions: vec![], fields: vec![] };
        proof {
            assert(r@.definitions =~= Seq::<StructDefView>::empty());
            assert(r@.vars =~= Seq::<FieldView>::empty());
        }
        r
    }

    /// Appends a struct definition, keeping discovery order.
    pub fn add_definition(&mut self, definition: StructDefinition)
        ensures
            final (self)@.definitions == old(self)@.definitions.push(definition@),
            final (self)@.vars == old(self)@.vars,
    {
        self.definitions.push(definition);
        proof {
            assert(final (self)@.definitions =~= old(self)@.definitions.push(definition@));
            assert(final (self)@.vars =~= old(self)@.vars);
        }
    }

    /// Appends a top-level variable declaration, keeping discovery order.
    pub fn add_field(&mut self, field: Field)
        ensures
            final (self)@.vars == old(self)@.vars.push(field@),
            final (self)@.definitions == old(self)@.definitions,
    {
        self.fields.push(field);
        proof {
            assert(final (self)@.vars =~= old(self)@.vars.push(field@));
            assert(final (self)@.definitions =~= old(self)@.definitions);
        }
    }

    /// The struct definitions, in discovery order.
    pub fn definitions(&self) -> (r: &Vec<StructDefinition>)
        ensures
            defs_view(r@) == self@.definitions,
    {
        &self.definitions
    }

    /// The top-level variable declarations, in discovery order.
    pub fn fields(&self) -> (r: &Vec<Field>)
        ensures
            fields_view(r@) == self@.vars,
    {
        &self.fields
    }

    /// The first top-level variable whose identifier equals `value`, if any.
    pub fn find_field_by_value(&self, value: &str) -> (r: Option<&Field>)
        ensures
            (match r {
                Some(f) => find_by_value(self@.vars, value@) == Some(f@),
                None => find_by_value(self@.vars, value@) is None,
            }),
    {
        find_in_fields(&self.fields, value)
    }

    /// The declared type of the field named `field_value` inside the
    /// definition named `definition_name`, if both lookups succeed.
    pub fn find_field_name_in_definition(
        &self,
        definition_name: &str,
        field_value: &str,
    ) -> (r: Option<&str>)
        ensures
            (match r {
                Some(n) => lookup_in_def(self@.definitions, definition_name@, field_value@)
                    == Some(n@),
                None => lookup_in_def(self@.definitions, definition_name@, field_value@) is None,
            }),
    {
        let ghost dv = defs_view(self.definitions@);
        proof {
            assert(dv.skip(0) =~= dv);
        }
        let mut i: usize = 0;
        while i < self.definitions.len()
            invariant
                0 <= i <= self.definitions.len(),
                dv == defs_view(self.definitions@),
                dv.len() == self.definitions.len(),
                find_def(dv, definition_name@) == find_def(dv.skip(i as int), definition_name@),
            decreases self.definitions.len() - i,
        {
            if crate::text::str_eq(self.definitions[i].name(), definition_name) {
                proof {
                    assert(dv.skip(i as int)[0] == dv[i as int]);
                }
                let d = &self.definitions[i];
                return match d.find_field_by_value(field_value) {
                    Some(f) => Some(f.get_name()),
                    None => None,
                };
            }
            proof {
                lemma_find_def_skip(dv, definition_name@, i as int);
            }
            i += 1;
        }
        proof {
            assert(dv.skip(i as int) =~= Seq::<StructDefView>::empty());
        }
        None
    }
}

} // verus!

