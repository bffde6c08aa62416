//! The endpoints that are bound to a live handler.

use vstd::prelude::*;
use crate::client::{client, render};
use crate::error::{ExportError, Failure};
use crate::text::texts;
use crate::registry::Registry;

verus! {

/// The names of the endpoints bound to a live handler, in the order in which
/// they were bound. No name occurs twice.
#[derive(Debug)]
pub struct Api {
    registered_fn_names: Vec<String>,
}

impl View for Api {
    type V = Seq<Seq<char>>;

    closed spec fn view(&self) -> Seq<Seq<char>> {
        texts(self.registered_fn_names@)
    }
}

/// What binding `name` gives where `active` are bound: the bound names with
/// `name` after them, or `DuplicateActivation` where `name` is among them.
pub open spec fn activated(active: Seq<Seq<char>>, name: Seq<char>) -> Result<
    Seq<Seq<char>>,
    Failure,
> {
    if active.contains(name) {
        Err(Failure::DuplicateActivation(name))
    } else {
        Ok(active.push(name))
    }
}

/// A name that was bound cannot be bound again.
pub proof fn lemma_second_activation_fails(active: Seq<Seq<char>>, name: Seq<char>)
    ensures
        activated(active, name) matches Ok(next) ==> activated(next, name) == Err::<
            Seq<Seq<char>>,
            Failure,
        >(Failure::DuplicateActivation(name)),
        activated(active, name) matches Err(e) ==> e == Failure::DuplicateActivation(name)
            && active.contains(name),
{
    if !active.contains(name) {
        let next = active.push(name);
        assert(next[next.len() - 1] == name);
    }
}

/// Binding keeps every name single.
pub proof fn lemma_activation_keeps_names_single(active: Seq<Seq<char>>, name: Seq<char>)
    requires
        active.no_duplicates(),
    ensures
        activated(active, name) matches Ok(next) ==> next.no_duplicates(),
{
}

/// The position of `name` among `names`, if it is there.
fn position(names: &Vec<String>, name: &str) -> (r: Option<usize>)
    ensures
        match r {
            Some(i) => i < names.len() && names[i as int]@ == name@,
            None => !texts(names@).contains(name@),
        },
{
    let wanted = name.to_owned();
    let mut i: usize = 0;
    while i < names.len()
        invariant
            i <= names.len(),
            wanted@ == name@,
            forall|k: int| 0 <= k < i ==> names[k]@ != name@,
        decreases names.len() - i,
    {
        if names[i] == wanted {
            return Some(i);
        }
        i += 1;
    }
    None
}

/// Whether `name` is among `names`.
pub(crate) fn contains_name(names: &Vec<String>, name: &str) -> (r: bool)
    ensures
        r == texts(names@).contains(name@),
{
    match position(names, name) {
        Some(i) => {
            assert(texts(names@)[i as int] == name@);
            true
        },
        None => false,
    }
}

impl Api {
    #[verifier::type_invariant]
    spec fn well_formed(&self) -> bool {
        texts(self.registered_fn_names@).no_duplicates()
    }

    /// An `Api` to which no endpoint is bound yet.
    pub fn new() -> (r: Api)
        ensures
            r@ == Seq::<Seq<char>>::empty(),
    {
        let r = Api { registered_fn_names: Vec::new() };
        assert(texts(r.registered_fn_names@) =~= Seq::empty());
        r
    }

    /// The names bound so far, in the order in which they were bound.
    pub fn registered_fn_names(&self) -> (r: &Vec<String>)
        ensures
            texts(r@) == self@,
            self@.no_duplicates(),
    {
        proof {
            use_type_invariant(self);
        }
        &self.registered_fn_names
    }

    /// Whether `name` is bound to a handler.
    pub fn is_registered(&self, name: &str) -> (r: bool)
        ensures
            r == self@.contains(name@),
    {
        contains_name(&self.registered_fn_names, name)
    }

    /// Binds `name` to a handler. A name that is already bound is refused, and
    /// nothing changes.
    pub fn activate(&mut self, name: &str) -> (r: Result<(), ExportError>)
        ensures
            match activated(old(self)@, name@) {
                Ok(next) => r is Ok && final(self)@ == next,
                Err(failure) => r matches Err(e) && e@ == failure && final(self)@ == old(self)@,
            },
    {
        if self.is_registered(name) {
            return Err(ExportError::DuplicateActivation(name.to_owned()));
        }
        proof {
            use_type_invariant(&*self);
        }
        let ghost before = texts(self.registered_fn_names@);
        let mut names: Vec<String> = Vec::new();
        std::mem::swap(&mut self.registered_fn_names, &mut names);
        names.push(name.to_owned());
        proof {
            assert(texts(names@) =~= before.push(name@));
        }
        std::mem::swap(&mut self.registered_fn_names, &mut names);
        Ok(())
    }

    /// The client module for the bound endpoints of `registry`, as text. It
    /// fails where a bound name is not declared in `registry`.
    pub fn export_ts_client(&self, registry: &Registry, server_url: &str, transport: &str) -> (r:
        Result<String, ExportError>)
        ensures
            match r {
                Ok(text) => client(self@, registry@, server_url@, transport@, true, true) == Ok::<
                    Seq<char>,
                    Failure,
                >(text@),
                Err(e) => client(self@, registry@, server_url@, transport@, true, true) == Err::<
                    Seq<char>,
                    Failure,
                >(e@),
            },
    {
        self.export_ts_client_choice(registry, server_url, transport, true, true)
    }

    /// The client module for the endpoints of `registry`, as text.
    ///
    /// With `export_only_registered` only the bound endpoints are written,
    /// else all that are declared. With `registered_must_be_exported` it
    /// fails where a bound name is not among those written.
    pub fn export_ts_client_choice(
        &self,
        registry: &Registry,
        server_url: &str,
        transport: &str,
        export_only_registered: bool,
        registered_must_be_exported: bool,
    ) -> (r: Result<String, ExportError>)
        ensures
            match r {
                Ok(text) => client(
                    self@,
                    registry@,
                    server_url@,
                    transport@,
                    export_only_registered,
                    registered_must_be_exported,
                ) == Ok::<Seq<char>, Failure>(text@),
                Err(e) => client(
                    self@,
                    registry@,
                    server_url@,
                    transport@,
                    export_only_registered,
                    registered_must_be_exported,
                ) == Err::<Seq<char>, Failure>(e@),
            },
    {
        render(
            &self.registered_fn_names,
            registry.descriptors(),
            server_url,
            transport,
            export_only_registered,
            registered_must_be_exported,
        )
    }

    /// Binds the handler named `fn_name`, which must not be bound yet.
    pub fn register_axum(self, fn_name: &str) -> (r: Api)
        requires
            !self@.contains(fn_name@),
        ensures
            r@ == self@.push(fn_name@),
    {
        let mut api = self;
        let bound = api.activate(fn_name);
        api
    }
}

impl Default for Api {
    fn default() -> (r: Api)
        ensures
            r@ == Seq::<Seq<char>>::empty(),
    {
        Api::new()
    }
}

} // verus!
