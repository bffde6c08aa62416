//! Endpoint descriptors: the typed record of one remote procedure.

use vstd::prelude::*;

verus! {

/// The declaration of one named type: an id that stands for the type, and the
/// text that declares it.
#[derive(Debug)]
pub struct Declaration {
    pub id: u64,
    pub text: String,
}

impl View for Declaration {
    type V = (u64, Seq<char>);

    open spec fn view(&self) -> (u64, Seq<char>) {
        (self.id, self.text@)
    }
}

/// What is known of one type: its name with the generic arguments filled in,
/// its own declaration where it has one, and the declarations of the types it
/// depends on.
#[derive(Debug)]
pub struct TypeInfo {
    pub name: String,
    pub declaration: Option<Declaration>,
    pub dependencies: Vec<Declaration>,
}

/// What a `TypeInfo` stands for.
pub struct TypeModel {
    pub name: Seq<char>,
    pub declaration: Option<(u64, Seq<char>)>,
    pub dependencies: Seq<(u64, Seq<char>)>,
}

/// The declarations a sequence of `Declaration`s stands for.
pub open spec fn declaration_views(decls: Seq<Declaration>) -> Seq<(u64, Seq<char>)> {
    decls.map_values(|d: Declaration| d@)
}

impl View for TypeInfo {
    type V = TypeModel;

    open spec fn view(&self) -> TypeModel {
        TypeModel {
            name: self.name@,
            declaration: match self.declaration {
                Some(d) => Some(d@),
                None => None,
            },
            dependencies: declaration_views(self.dependencies@),
        }
    }
}

/// What a `TsFn` stands for: the name of an endpoint, its parameters in call
/// order, each a name and a type expression, the type expression of its
/// response, and the declarations its types need, in the order in which they
/// were first added.
pub struct Descriptor {
    pub name: Seq<char>,
    pub declarations: Seq<(u64, Seq<char>)>,
    pub parameters: Seq<(Seq<char>, Seq<char>)>,
    pub response_type: Seq<char>,
}

/// No id occurs twice.
pub open spec fn unique_ids(decls: Seq<(u64, Seq<char>)>) -> bool {
    forall|i: int, j: int| 0 <= i < j < decls.len() ==> decls[i].0 != decls[j].0
}

/// The first index from `from` on at which `id` stands, or the length.
pub open spec fn find_id(decls: Seq<(u64, Seq<char>)>, id: u64, from: int) -> int
    decreases decls.len() - from,
{
    if 0 <= from < decls.len() && decls[from].0 != id {
        find_id(decls, id, from + 1)
    } else {
        from
    }
}

/// `decls` with the declaration `d` added: in the place of the one with the
/// same id, or at the end where there is none.
pub open spec fn with_declaration(decls: Seq<(u64, Seq<char>)>, d: (u64, Seq<char>)) -> Seq<
    (u64, Seq<char>),
> {
    let i = find_id(decls, d.0, 0);
    if i < decls.len() {
        decls.update(i, d)
    } else {
        decls.push(d)
    }
}

/// `decls` with the declarations `more` added one after the other.
pub open spec fn with_declarations(
    decls: Seq<(u64, Seq<char>)>,
    more: Seq<(u64, Seq<char>)>,
) -> Seq<(u64, Seq<char>)>
    decreases more.len(),
{
    if more.len() == 0 {
        decls
    } else {
        with_declaration(with_declarations(decls, more.drop_last()), more.last())
    }
}

/// `decls` with all that the type `ty` needs: its own declaration, then those
/// of the types it depends on.
pub open spec fn with_type(decls: Seq<(u64, Seq<char>)>, ty: TypeModel) -> Seq<(u64, Seq<char>)> {
    let own = match ty.declaration {
        Some(d) => with_declaration(decls, d),
        None => decls,
    };
    with_declarations(own, ty.dependencies)
}

/// The declarations as a map from id to text.
pub open spec fn declaration_map(decls: Seq<(u64, Seq<char>)>) -> Map<u64, Seq<char>> {
    Map::new(
        |id: u64| find_id(decls, id, 0) < decls.len(),
        |id: u64| decls[find_id(decls, id, 0)].1,
    )
}

pub proof fn lemma_find_id(decls: Seq<(u64, Seq<char>)>, id: u64, from: int)
    requires
        0 <= from <= decls.len(),
    ensures
        from <= find_id(decls, id, from) <= decls.len(),
        find_id(decls, id, from) < decls.len() ==> decls[find_id(decls, id, from)].0 == id,
        forall|k: int| from <= k < find_id(decls, id, from) ==> (#[trigger] decls[k]).0 != id,
    decreases decls.len() - from,
{
    if from < decls.len() && decls[from].0 != id {
        lemma_find_id(decls, id, from + 1);
    }
}

/// An id is found by what bounds the search: it occurs at `n`, or `n` is the
/// length, and it does not occur before.
pub proof fn lemma_find_id_is(decls: Seq<(u64, Seq<char>)>, id: u64, from: int, n: int)
    requires
        0 <= from <= n <= decls.len(),
        forall|k: int| from <= k < n ==> (#[trigger] decls[k]).0 != id,
        n < decls.len() ==> decls[n].0 == id,
    ensures
        find_id(decls, id, from) == n,
    decreases n - from,
{
    if from < n {
        lemma_find_id_is(decls, id, from + 1, n);
    }
}

/// Adding a declaration keeps every id single, and on the map it is an
/// insertion.
pub proof fn lemma_with_declaration(decls: Seq<(u64, Seq<char>)>, d: (u64, Seq<char>))
    requires
        unique_ids(decls),
    ensures
        unique_ids(with_declaration(decls, d)),
        declaration_map(with_declaration(decls, d)) == declaration_map(decls).insert(d.0, d.1),
{
    let after = with_declaration(decls, d);
    let i = find_id(decls, d.0, 0);
    lemma_find_id(decls, d.0, 0);
    assert forall|id: u64|
        (find_id(after, id, 0) < after.len()) == (id == d.0 || find_id(decls, id, 0)
            < decls.len()) && (find_id(after, id, 0) < after.len() ==> after[find_id(
            after,
            id,
            0,
        )].1 == (if id == d.0 {
            d.1
        } else {
            decls[find_id(decls, id, 0)].1
        })) by {
        lemma_find_id(decls, id, 0);
        let a = find_id(decls, id, 0);
        if i < decls.len() {
            assert forall|k: int| 0 <= k < a implies (#[trigger] after[k]).0 != id by {
                assert(decls[k].0 != id);
            }
            lemma_find_id_is(after, id, 0, a);
        } else if id == d.0 {
            assert forall|k: int| 0 <= k < a implies (#[trigger] after[k]).0 != id by {
                assert(decls[k].0 != id);
            }
            lemma_find_id_is(after, id, 0, a);
        } else if a < decls.len() {
            assert forall|k: int| 0 <= k < a implies (#[trigger] after[k]).0 != id by {
                assert(decls[k].0 != id);
            }
            lemma_find_id_is(after, id, 0, a);
        } else {
            assert forall|k: int| 0 <= k < after.len() implies (#[trigger] after[k]).0 != id by {
                if k < decls.len() {
                    assert(decls[k].0 != id);
                }
            }
            lemma_find_id_is(after, id, 0, after.len() as int);
        }
    }
    assert(declaration_map(after) =~= declaration_map(decls).insert(d.0, d.1));
    assert forall|j: int, k: int| 0 <= j < k < after.len() implies after[j].0 != after[k].0 by {
        if i < decls.len() {
            assert(after[j].0 == decls[j].0);
            assert(after[k].0 == decls[k].0);
        } else if k < decls.len() {
        } else {
            assert(decls[j].0 != d.0);
        }
    }
}

/// Adding declarations one after the other keeps every id single, and on the
/// map it is one insertion after the other.
pub proof fn lemma_with_declarations(decls: Seq<(u64, Seq<char>)>, more: Seq<(u64, Seq<char>)>)
    requires
        unique_ids(decls),
    ensures
        unique_ids(with_declarations(decls, more)),
        more.len() > 0 ==> declaration_map(with_declarations(decls, more)) == declaration_map(
            with_declarations(decls, more.drop_last()),
        ).insert(more.last().0, more.last().1),
    decreases more.len(),
{
    if more.len() > 0 {
        lemma_with_declarations(decls, more.drop_last());
        lemma_with_declaration(with_declarations(decls, more.drop_last()), more.last());
    }
}

/// The typed record of one endpoint.
#[derive(Debug)]
pub struct TsFn {
    name: String,
    type_declarations: Vec<Declaration>,
    request_types: Vec<(String, String)>,
    response_type: String,
}

/// The parameters a sequence of pairs of strings stands for.
pub open spec fn parameter_views(params: Seq<(String, String)>) -> Seq<(Seq<char>, Seq<char>)> {
    params.map_values(|p: (String, String)| (p.0@, p.1@))
}

impl View for TsFn {
    type V = Descriptor;

    closed spec fn view(&self) -> Descriptor {
        Descriptor {
            name: self.name@,
            declarations: declaration_views(self.type_declarations@),
            parameters: parameter_views(self.request_types@),
            response_type: self.response_type@,
        }
    }
}

impl TsFn {
    #[verifier::type_invariant]
    spec fn well_formed(&self) -> bool {
        unique_ids(declaration_views(self.type_declarations@))
    }

    /// The descriptor of the endpoint `name`, so far without parameters,
    /// response type and declarations.
    pub fn new(name: &str) -> (r: TsFn)
        ensures
            r@ == (Descriptor {
                name: name@,
                declarations: Seq::empty(),
                parameters: Seq::empty(),
                response_type: Seq::empty(),
            }),
    {
        let r = TsFn {
            name: name.to_owned(),
            type_declarations: Vec::new(),
            request_types: Vec::new(),
            response_type: String::new(),
        };
        assert(declaration_views(r.type_declarations@) =~= Seq::empty());
        assert(parameter_views(r.request_types@) =~= Seq::empty());
        r
    }

    pub fn name(&self) -> (r: &str)
        ensures
            r@ == self@.name,
    {
        self.name.as_str()
    }

    pub fn response_type(&self) -> (r: &str)
        ensures
            r@ == self@.response_type,
    {
        self.response_type.as_str()
    }

    pub fn request_types(&self) -> (r: &Vec<(String, String)>)
        ensures
            parameter_views(r@) == self@.parameters,
    {
        &self.request_types
    }

    /// The declarations, in the order in which they were first added. No id
    /// occurs twice among them.
    pub fn type_declarations(&self) -> (r: &Vec<Declaration>)
        ensures
            declaration_views(r@) == self@.declarations,
            unique_ids(self@.declarations),
    {
        proof {
            use_type_invariant(self);
        }
        &self.type_declarations
    }

    /// Adds the declarations that the type `ty` needs: its own, then those of
    /// the types it depends on. One whose id is already there takes the place
    /// of the earlier one.
    pub fn add_type_definitions(&mut self, ty: &TypeInfo)
        ensures
            final(self)@ == (Descriptor {
                declarations: with_type(old(self)@.declarations, ty@),
                ..old(self)@
            }),
    {
        proof {
            use_type_invariant(&*self);
        }
        let mut decls: Vec<Declaration> = Vec::new();
        std::mem::swap(&mut self.type_declarations, &mut decls);
        add_type(&mut decls, ty);
        std::mem::swap(&mut self.type_declarations, &mut decls);
    }

    /// Adds a parameter named `param_name` of type `ty` after those already
    /// there, and the declarations that `ty` needs.
    pub fn add_request_type(&mut self, param_name: &str, ty: &TypeInfo)
        ensures
            final(self)@ == (Descriptor {
                declarations: with_type(old(self)@.declarations, ty@),
                parameters: old(self)@.parameters.push((param_name@, ty@.name)),
                ..old(self)@
            }),
    {
        self.add_type_definitions(ty);
        proof {
            use_type_invariant(&*self);
        }
        let ghost before = parameter_views(self.request_types@);
        let mut params: Vec<(String, String)> = Vec::new();
        std::mem::swap(&mut self.request_types, &mut params);
        params.push((param_name.to_owned(), ty.name.clone()));
        proof {
            assert(parameter_views(params@) =~= before.push((param_name@, ty@.name)));
        }
        std::mem::swap(&mut self.request_types, &mut params);
    }

    /// Makes `ty` the type of the response, and adds the declarations that it
    /// needs.
    pub fn set_response_type(&mut self, ty: &TypeInfo)
        ensures
            final(self)@ == (Descriptor {
                declarations: with_type(old(self)@.declarations, ty@),
                response_type: ty@.name,
                ..old(self)@
            }),
    {
        self.add_type_definitions(ty);
        proof {
            use_type_invariant(&*self);
        }
        self.response_type = ty.name.clone();
    }
}

impl Clone for TsFn {
    /// A descriptor that stands for the same endpoint.
    fn clone(&self) -> (r: TsFn)
        ensures
            r@ == self@,
    {
        proof {
            use_type_invariant(self);
        }
        let mut decls: Vec<Declaration> = Vec::new();
        let mut i: usize = 0;
        while i < self.type_declarations.len()
            invariant
                i <= self.type_declarations.len(),
                decls.len() == i,
                forall|k: int| 0 <= k < i ==> (#[trigger] decls[k])@ == self.type_declarations[k]@,
            decreases self.type_declarations.len() - i,
        {
            let d = &self.type_declarations[i];
            decls.push(Declaration { id: d.id, text: d.text.clone() });
            i += 1;
        }
        let mut params: Vec<(String, String)> = Vec::new();
        let mut j: usize = 0;
        while j < self.request_types.len()
            invariant
                j <= self.request_types.len(),
                params.len() == j,
                forall|k: int|
                    0 <= k < j ==> (#[trigger] params[k]).0@ == self.request_types[k].0@
                        && params[k].1@ == self.request_types[k].1@,
            decreases self.request_types.len() - j,
        {
            params.push((self.request_types[j].0.clone(), self.request_types[j].1.clone()));
            j += 1;
        }
        proof {
            assert(declaration_views(decls@) =~= declaration_views(self.type_declarations@));
            assert(parameter_views(params@) =~= parameter_views(self.request_types@));
        }
        TsFn {
            name: self.name.clone(),
            type_declarations: decls,
            request_types: params,
            response_type: self.response_type.clone(),
        }
    }
}

/// Adds one declaration: in the place of the one with the same id, or at the
/// end where there is none.
fn add_declaration(decls: &mut Vec<Declaration>, d: &Declaration)
    requires
        unique_ids(declaration_views(old(decls)@)),
    ensures
        declaration_views(final(decls)@) == with_declaration(declaration_views(old(decls)@), d@),
        unique_ids(declaration_views(final(decls)@)),
{
    let ghost before = declaration_views(decls@);
    proof {
        lemma_find_id(before, d.id, 0);
        lemma_with_declaration(before, d@);
    }
    let mut i: usize = 0;
    while i < decls.len() && decls[i].id != d.id
        invariant
            i <= decls.len(),
            before == declaration_views(decls@),
            find_id(before, d.id, 0) == find_id(before, d.id, i as int),
        decreases decls.len() - i,
    {
        i += 1;
    }
    let copy = Declaration { id: d.id, text: d.text.clone() };
    if i < decls.len() {
        decls.set(i, copy);
        assert(declaration_views(decls@) =~= before.update(i as int, d@));
    } else {
        decls.push(copy);
        assert(declaration_views(decls@) =~= before.push(d@));
    }
}

/// Adds all that the type `ty` needs: its own declaration, then those of the
/// types it depends on.
fn add_type(decls: &mut Vec<Declaration>, ty: &TypeInfo)
    requires
        unique_ids(declaration_views(old(decls)@)),
    ensures
        declaration_views(final(decls)@) == with_type(declaration_views(old(decls)@), ty@),
        unique_ids(declaration_views(final(decls)@)),
{
    match &ty.declaration {
        Some(d) => {
            add_declaration(decls, d);
        },
        None => {},
    }
    let ghost own = declaration_views(decls@);
    let ghost more = declaration_views(ty.dependencies@);
    let mut i: usize = 0;
    while i < ty.dependencies.len()
        invariant
            i <= ty.dependencies.len(),
            more == declaration_views(ty.dependencies@),
            unique_ids(declaration_views(decls@)),
            declaration_views(decls@) == with_declarations(own, more.take(i as int)),
        decreases ty.dependencies.len() - i,
    {
        add_declaration(decls, &ty.dependencies[i]);
        proof {
            assert(more.take(i + 1).drop_last() =~= more.take(i as int));
        }
        i += 1;
    }
    proof {
        assert(more.take(i as int) =~= more);
    }
}

} // verus!
