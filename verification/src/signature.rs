//! What is exported of a handler, decided from its signature.

use vstd::prelude::*;
use vstd::string::StringExecFns;
use crate::descriptor::parameter_views;

verus! {

/// One parameter of a handler.
#[derive(Debug)]
pub struct Parameter {
    /// The pattern that names it.
    pub name: String,
    /// Its type, as written.
    pub ty: String,
    /// Whether it is `self`.
    pub is_receiver: bool,
    /// Whether its type is a path with a segment `Axum`: such a parameter is
    /// filled in by the server, not sent by the client.
    pub names_axum: bool,
}

/// The signature of a handler.
#[derive(Debug)]
pub struct Signature {
    pub name: String,
    pub is_async: bool,
    /// The number of generic parameters.
    pub generics: usize,
    pub parameters: Vec<Parameter>,
    /// The type it returns, as written; `None` where none is written.
    pub output: Option<String>,
}

/// Why a handler cannot be exported.
#[derive(Debug, PartialEq, Eq, Structural)]
pub enum SignatureError {
    /// It is not `async`.
    NotAsync,
    /// It has generic parameters.
    Generics,
    /// It takes `self`.
    Receiver,
}

/// What is exported of a handler: its name, the name of the item that holds
/// its descriptor, the parameters the client sends, each a name and a type,
/// and the type of the response.
#[derive(Debug)]
pub struct Export {
    pub name: String,
    pub static_name: String,
    pub parameters: Vec<(String, String)>,
    pub output: String,
}

pub const STATIC_MARK: &'static str = "__";

pub const UNIT: &'static str = "()";

/// Whether one of the parameters is `self`.
pub open spec fn has_receiver(ps: Seq<Parameter>) -> bool {
    exists|i: int| 0 <= i < ps.len() && (#[trigger] ps[i]).is_receiver
}

/// The parameters the client sends: all but a last one that the server fills
/// in.
pub open spec fn sent(ps: Seq<Parameter>) -> Seq<Parameter> {
    if ps.len() > 0 && ps.last().names_axum {
        ps.drop_last()
    } else {
        ps
    }
}

/// The names and types of the parameters.
pub open spec fn named_types(ps: Seq<Parameter>) -> Seq<(Seq<char>, Seq<char>)> {
    ps.map_values(|p: Parameter| (p.name@, p.ty@))
}

/// The type a handler returns: the unit type where none is written.
pub open spec fn output_type(output: Option<String>) -> Seq<char> {
    match output {
        Some(ty) => ty@,
        None => UNIT@,
    }
}

impl SignatureError {
    /// What is said of the failure.
    pub fn message(&self) -> (r: &'static str)
        ensures
            r@ == match self {
                SignatureError::NotAsync => "Must be async"@,
                SignatureError::Generics => "Generics not supported"@,
                SignatureError::Receiver => "self argument not supported"@,
            },
    {
        match self {
            SignatureError::NotAsync => "Must be async",
            SignatureError::Generics => "Generics not supported",
            SignatureError::Receiver => "self argument not supported",
        }
    }
}

/// What is exported of the handler with signature `sig`.
///
/// A handler that is not `async` is refused; of the others one with generic
/// parameters; of the others one that takes `self`.
pub fn plan_export(sig: &Signature) -> (r: Result<Export, SignatureError>)
    ensures
        match r {
            Ok(e) => {
                &&& sig.is_async
                &&& sig.generics == 0
                &&& !has_receiver(sig.parameters@)
                &&& e.name@ == sig.name@
                &&& e.static_name@ == STATIC_MARK@ + sig.name@
                &&& parameter_views(e.parameters@) == named_types(sent(sig.parameters@))
                &&& e.output@ == output_type(sig.output)
            },
            Err(SignatureError::NotAsync) => !sig.is_async,
            Err(SignatureError::Generics) => sig.is_async && sig.generics > 0,
            Err(SignatureError::Receiver) => sig.is_async && sig.generics == 0 && has_receiver(
                sig.parameters@,
            ),
        },
{
    if !sig.is_async {
        return Err(SignatureError::NotAsync);
    }
    if sig.generics > 0 {
        return Err(SignatureError::Generics);
    }
    let ps = &sig.parameters;
    let mut i: usize = 0;
    while i < ps.len()
        invariant
            i <= ps.len(),
            ps@ == sig.parameters@,
            sig.is_async,
            sig.generics == 0,
            forall|k: int| 0 <= k < i ==> !(#[trigger] ps[k]).is_receiver,
        decreases ps.len() - i,
    {
        if ps[i].is_receiver {
            proof {
                assert(sig.parameters@[i as int].is_receiver);
            }
            return Err(SignatureError::Receiver);
        }
        i += 1;
    }
    let count = if ps.len() > 0 && ps[ps.len() - 1].names_axum {
        ps.len() - 1
    } else {
        ps.len()
    };
    let mut parameters: Vec<(String, String)> = Vec::new();
    let mut j: usize = 0;
    while j < count
        invariant
            j <= count <= ps.len(),
            parameters.len() == j,
            forall|k: int|
                0 <= k < j ==> (#[trigger] parameters[k]).0@ == ps[k].name@ && parameters[k].1@
                    == ps[k].ty@,
        decreases count - j,
    {
        parameters.push((ps[j].name.clone(), ps[j].ty.clone()));
        j += 1;
    }
    let mut static_name = String::new();
    static_name.append(STATIC_MARK);
    static_name.append(sig.name.as_str());
    let output = match &sig.output {
        Some(ty) => ty.clone(),
        None => UNIT.to_owned(),
    };
    proof {
        assert(Seq::<char>::empty() + STATIC_MARK@ =~= STATIC_MARK@);
        assert(parameter_views(parameters@) =~= named_types(sent(ps@)));
    }
    Ok(Export { name: sig.name.clone(), static_name, parameters, output })
}

} // verus!
