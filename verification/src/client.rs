//! The client module as text: which endpoints are written, in which order,
//! and what is written for each.

use vstd::prelude::*;
use vstd::string::StringExecFns;
use crate::api::contains_name;
use crate::descriptor::{declaration_views, parameter_views, Declaration, Descriptor, TsFn};
use crate::error::{ExportError, Failure};
use crate::order::{chars_le, first_after, insert_by_name, names_of};
use crate::registry::descriptor_views;
use crate::text::{append_joined, join, same_str, texts, to_chars};
use crate::type_expr::{is_type_expression, prefix_type, prefixed, type_expression};

verus! {

pub const EXPORT_OPEN: &'static str = "export {\n  ";

pub const EXPORT_SEPARATOR: &'static str = ",\n  ";

pub const EXPORT_CLOSE: &'static str = "\n}\n";

pub const NAMESPACE_OPEN: &'static str = "\nnamespace ";

pub const NAMESPACE_BODY: &'static str = " {\n    ";

pub const DECLARATION_MARK: &'static str = "export ";

pub const DECLARATION_SEPARATOR: &'static str = "\n";

pub const FUNCTION_OPEN: &'static str = "\n}\nfunction ";

pub const PARAMETERS_OPEN: &'static str = "(";

pub const PARAMETER_TYPE: &'static str = ": ";

pub const LIST_SEPARATOR: &'static str = ", ";

pub const RESPONSE_OPEN: &'static str = "): __request.CancelablePromise<";

pub const REQUEST_OPEN: &'static str =
    "> {\n    return __request.request(\n        { url: '";

pub const REQUEST_METHOD: &'static str =
    "' },\n        {\n            method: 'POST',\n            url: '/";

pub const REQUEST_BODY: &'static str = "',\n            body: [";

pub const REQUEST_CLOSE: &'static str =
    "],\n            mediaType: 'application/json',\n        }\n    )\n}\n";

pub const TRANSPORT_OPEN: &'static str = "\nnamespace __request {\n";

pub const TRANSPORT_CLOSE: &'static str = "\n}";

/// Whether a descriptor named `name` is written: always where all declared
/// endpoints are, else where the name is bound to a handler.
pub open spec fn selects(active: Seq<Seq<char>>, only_registered: bool, name: Seq<char>) -> bool {
    !only_registered || active.contains(name)
}

/// The descriptors that are written, in the order in which they are written:
/// by name, and among equal names as they stand in the registry.
pub open spec fn emitted(
    active: Seq<Seq<char>>,
    registry: Seq<Descriptor>,
    only_registered: bool,
) -> Seq<Descriptor>
    decreases registry.len(),
{
    if registry.len() == 0 {
        Seq::empty()
    } else {
        let before = emitted(active, registry.drop_last(), only_registered);
        if selects(active, only_registered, registry.last().name) {
            insert_by_name(before, registry.last())
        } else {
            before
        }
    }
}

/// The first index from `from` on whose descriptor has the name of the one
/// before it; where there is none, an index that is not one of `ds`.
pub open spec fn first_repeat(ds: Seq<Descriptor>, from: int) -> int
    decreases ds.len() - from,
{
    if 1 <= from < ds.len() && ds[from].name != ds[from - 1].name {
        first_repeat(ds, from + 1)
    } else {
        from
    }
}

/// The first index from `from` on whose parameter has a malformed type, or
/// the length.
pub open spec fn first_bad_parameter(params: Seq<(Seq<char>, Seq<char>)>, from: int) -> int
    decreases params.len() - from,
{
    if 0 <= from < params.len() && type_expression(params[from].1) {
        first_bad_parameter(params, from + 1)
    } else {
        from
    }
}

pub proof fn lemma_first_bad_parameter(params: Seq<(Seq<char>, Seq<char>)>, from: int)
    requires
        0 <= from <= params.len(),
    ensures
        from <= first_bad_parameter(params, from) <= params.len(),
        forall|k: int|
            from <= k < first_bad_parameter(params, from) ==> type_expression(
                (#[trigger] params[k]).1,
            ),
        first_bad_parameter(params, from) < params.len() ==> !type_expression(
            params[first_bad_parameter(params, from)].1,
        ),
    decreases params.len() - from,
{
    if from < params.len() && type_expression(params[from].1) {
        lemma_first_bad_parameter(params, from + 1);
    }
}

/// The first malformed type expression of a descriptor: that of a parameter,
/// in call order, else that of the response.
pub open spec fn malformed_type(d: Descriptor) -> Option<Seq<char>> {
    let i = first_bad_parameter(d.parameters, 0);
    if i < d.parameters.len() {
        Some(d.parameters[i].1)
    } else if !type_expression(d.response_type) {
        Some(d.response_type)
    } else {
        None
    }
}

/// The first index from `from` on whose descriptor has a malformed type
/// expression, or the length.
pub open spec fn first_malformed(ds: Seq<Descriptor>, from: int) -> int
    decreases ds.len() - from,
{
    if 0 <= from < ds.len() && malformed_type(ds[from]) is None {
        first_malformed(ds, from + 1)
    } else {
        from
    }
}

/// Those of `active` that are not among `present`, in the order of `active`.
pub open spec fn missing(active: Seq<Seq<char>>, present: Seq<Seq<char>>) -> Seq<Seq<char>>
    decreases active.len(),
{
    if active.len() == 0 {
        Seq::empty()
    } else if present.contains(active.last()) {
        missing(active.drop_last(), present)
    } else {
        missing(active.drop_last(), present).push(active.last())
    }
}

/// The lines that declare the types of an endpoint.
pub open spec fn declaration_lines(decls: Seq<(u64, Seq<char>)>) -> Seq<Seq<char>> {
    decls.map_values(|d: (u64, Seq<char>)| DECLARATION_MARK@ + d.1)
}

/// One parameter with its type, the type moved into namespace `ns`.
pub open spec fn typed_parameter(ns: Seq<char>, p: (Seq<char>, Seq<char>)) -> Seq<char> {
    p.0 + PARAMETER_TYPE@ + prefixed(ns, p.1).unwrap()
}

pub open spec fn typed_parameters(ns: Seq<char>, params: Seq<(Seq<char>, Seq<char>)>) -> Seq<
    Seq<char>,
> {
    params.map_values(|p: (Seq<char>, Seq<char>)| typed_parameter(ns, p))
}

pub open spec fn parameter_names(params: Seq<(Seq<char>, Seq<char>)>) -> Seq<Seq<char>> {
    params.map_values(|p: (Seq<char>, Seq<char>)| p.0)
}

/// What is written for one endpoint: the namespace with the declarations of
/// its types, then the function that sends the request.
pub open spec fn endpoint_block(d: Descriptor, server_url: Seq<char>) -> Seq<char> {
    NAMESPACE_OPEN@ + d.name + NAMESPACE_BODY@ + join(
        declaration_lines(d.declarations),
        DECLARATION_SEPARATOR@,
    ) + FUNCTION_OPEN@ + d.name + PARAMETERS_OPEN@ + join(
        typed_parameters(d.name, d.parameters),
        LIST_SEPARATOR@,
    ) + RESPONSE_OPEN@ + prefixed(d.name, d.response_type).unwrap() + REQUEST_OPEN@ + server_url
        + REQUEST_METHOD@ + d.name + REQUEST_BODY@ + join(
        parameter_names(d.parameters),
        LIST_SEPARATOR@,
    ) + REQUEST_CLOSE@
}

/// The blocks of the endpoints, one after the other.
pub open spec fn endpoint_blocks(ds: Seq<Descriptor>, server_url: Seq<char>) -> Seq<char>
    decreases ds.len(),
{
    if ds.len() == 0 {
        Seq::empty()
    } else {
        endpoint_blocks(ds.drop_last(), server_url) + endpoint_block(ds.last(), server_url)
    }
}

/// The whole module: the list of exported names, the blocks of the
/// endpoints, and the namespace that holds the transport helper.
pub open spec fn document(ds: Seq<Descriptor>, server_url: Seq<char>, transport: Seq<char>) -> Seq<
    char,
> {
    EXPORT_OPEN@ + join(names_of(ds), EXPORT_SEPARATOR@) + EXPORT_CLOSE@ + endpoint_blocks(
        ds,
        server_url,
    ) + TRANSPORT_OPEN@ + transport + TRANSPORT_CLOSE@
}

/// What generating the client gives: the module, or why there is none.
///
/// Two written endpoints of one name fail first, with the first such name in
/// the order of names. A malformed type expression fails next, with the first
/// one of the first endpoint that has one. Names that are bound but not
/// written fail last, and only where `must_export` asks for it.
pub open spec fn client(
    active: Seq<Seq<char>>,
    registry: Seq<Descriptor>,
    server_url: Seq<char>,
    transport: Seq<char>,
    only_registered: bool,
    must_export: bool,
) -> Result<Seq<char>, Failure> {
    let ds = emitted(active, registry, only_registered);
    let repeat = first_repeat(ds, 1);
    let bad = first_malformed(ds, 0);
    let unexported = missing(active, names_of(ds));
    if repeat < ds.len() {
        Err(Failure::DuplicateExportName(ds[repeat].name))
    } else if bad < ds.len() {
        Err(Failure::MalformedTypeExpression(malformed_type(ds[bad]).unwrap()))
    } else if must_export && unexported.len() > 0 {
        Err(Failure::UnexportedActivation(unexported))
    } else {
        Ok(document(ds, server_url, transport))
    }
}

/// The descriptors a sequence of borrowed `TsFn`s stands for.
pub open spec fn borrowed_views(fns: Seq<&TsFn>) -> Seq<Descriptor> {
    fns.map_values(|f: &TsFn| f@)
}

/// The names of a sequence of descriptors, as characters.
pub open spec fn key_views(keys: Seq<Vec<char>>) -> Seq<Seq<char>> {
    keys.map_values(|k: Vec<char>| k@)
}

/// The descriptors that are written, in the order in which they are written.
fn emission_order<'a>(names: &Vec<String>, fns: &'a Vec<TsFn>, only_registered: bool) -> (r: Vec<
    &'a TsFn,
>)
    ensures
        borrowed_views(r@) == emitted(texts(names@), descriptor_views(fns@), only_registered),
{
    let ghost active = texts(names@);
    let ghost all = descriptor_views(fns@);
    let mut picked: Vec<&'a TsFn> = Vec::new();
    let mut keys: Vec<Vec<char>> = Vec::new();
    let mut i: usize = 0;
    assert(borrowed_views(picked@) =~= Seq::empty());
    assert(key_views(keys@) =~= Seq::empty());
    assert(all.take(0) =~= Seq::empty());
    while i < fns.len()
        invariant
            i <= fns.len(),
            active == texts(names@),
            all == descriptor_views(fns@),
            borrowed_views(picked@) == emitted(active, all.take(i as int), only_registered),
            key_views(keys@) == names_of(borrowed_views(picked@)),
        decreases fns.len() - i,
    {
        let f = &fns[i];
        proof {
            assert(all.take(i + 1).drop_last() =~= all.take(i as int));
            assert(all.take(i + 1).last() == f@);
        }
        if !only_registered || contains_name(names, f.name()) {
            let key = to_chars(f.name());
            let ghost before = borrowed_views(picked@);
            proof {
                assert(key_views(keys@).len() == keys.len());
                assert(names_of(before).len() == before.len());
            }
            let mut j: usize = 0;
            while j < keys.len() && chars_le(keys[j].as_slice(), key.as_slice())
                invariant
                    j <= keys.len(),
                    key@ == f@.name,
                    before == borrowed_views(picked@),
                    key_views(keys@) == names_of(before),
                    keys.len() == before.len(),
                    first_after(before, f@.name, 0) == first_after(before, f@.name, j as int),
                decreases keys.len() - j,
            {
                proof {
                    assert(key_views(keys@)[j as int] == keys[j as int]@);
                    assert(names_of(before)[j as int] == before[j as int].name);
                }
                j += 1;
            }
            proof {
                if j < keys.len() {
                    assert(key_views(keys@)[j as int] == keys[j as int]@);
                    assert(names_of(before)[j as int] == before[j as int].name);
                }
            }
            let ghost old_keys = key_views(keys@);
            picked.insert(j, f);
            keys.insert(j, key);
            proof {
                assert(borrowed_views(picked@) =~= before.insert(j as int, f@));
                assert(key_views(keys@) =~= old_keys.insert(j as int, f@.name));
                assert(names_of(before.insert(j as int, f@)) =~= names_of(before).insert(
                    j as int,
                    f@.name,
                ));
            }
        }
        i += 1;
    }
    proof {
        assert(all.take(i as int) =~= all);
    }
    picked
}

/// The first index whose descriptor has the name of the one before it; where
/// there is none, an index that is not one of `ds`.
fn find_repeat(ds: &Vec<&TsFn>) -> (r: usize)
    ensures
        r == first_repeat(borrowed_views(ds@), 1),
{
    let ghost views = borrowed_views(ds@);
    let mut i: usize = 1;
    while i < ds.len() && !same_str(ds[i].name(), ds[i - 1].name())
        invariant
            1 <= i,
            i <= ds.len() || i == 1,
            views == borrowed_views(ds@),
            first_repeat(views, 1) == first_repeat(views, i as int),
        decreases ds.len() - i,
    {
        proof {
            assert(views[i as int] == ds[i as int]@);
            assert(views[i - 1] == ds[i - 1]@);
        }
        i += 1;
    }
    proof {
        if i < ds.len() {
            assert(views[i as int] == ds[i as int]@);
            assert(views[i - 1] == ds[i - 1]@);
        }
    }
    i
}

/// The first malformed type expression of a descriptor, if it has one.
fn find_malformed_type(d: &TsFn) -> (r: Option<String>)
    ensures
        match r {
            Some(e) => malformed_type(d@) == Some(e@),
            None => malformed_type(d@) is None,
        },
{
    let params = d.request_types();
    let ghost views = parameter_views(params@);
    let mut i: usize = 0;
    while i < params.len()
        invariant
            i <= params.len(),
            views == parameter_views(params@),
            views == d@.parameters,
            first_bad_parameter(views, 0) == first_bad_parameter(views, i as int),
        decreases params.len() - i,
    {
        proof {
            assert(views[i as int] == (params[i as int].0@, params[i as int].1@));
        }
        if !is_type_expression(params[i].1.as_str()) {
            return Some(params[i].1.clone());
        }
        i += 1;
    }
    if !is_type_expression(d.response_type()) {
        return Some(d.response_type().to_owned());
    }
    None
}

/// The first index whose descriptor has a malformed type expression, with
/// that expression; or the length.
fn find_malformed(ds: &Vec<&TsFn>) -> (r: (usize, Option<String>))
    ensures
        r.0 == first_malformed(borrowed_views(ds@), 0),
        r.0 <= ds.len(),
        match r.1 {
            Some(e) => r.0 < ds.len() && malformed_type(borrowed_views(ds@)[r.0 as int]) == Some(
                e@,
            ),
            None => r.0 == ds.len(),
        },
{
    let ghost views = borrowed_views(ds@);
    let mut i: usize = 0;
    while i < ds.len()
        invariant
            i <= ds.len(),
            views == borrowed_views(ds@),
            first_malformed(views, 0) == first_malformed(views, i as int),
        decreases ds.len() - i,
    {
        proof {
            assert(views[i as int] == ds[i as int]@);
        }
        match find_malformed_type(ds[i]) {
            Some(e) => {
                return (i, Some(e));
            },
            None => {},
        }
        i += 1;
    }
    (i, None)
}

/// Whether a descriptor named `name` is among `ds`.
fn is_written(ds: &Vec<&TsFn>, name: &str) -> (r: bool)
    ensures
        r == names_of(borrowed_views(ds@)).contains(name@),
{
    let ghost written = names_of(borrowed_views(ds@));
    let mut i: usize = 0;
    while i < ds.len()
        invariant
            i <= ds.len(),
            written == names_of(borrowed_views(ds@)),
            written.len() == ds.len(),
            forall|k: int| 0 <= k < i ==> written[k] != name@,
        decreases ds.len() - i,
    {
        proof {
            assert(borrowed_views(ds@)[i as int] == ds[i as int]@);
            assert(written[i as int] == ds[i as int]@.name);
        }
        if same_str(ds[i].name(), name) {
            return true;
        }
        i += 1;
    }
    false
}

/// Those of `names` under which no descriptor is among `ds`.
fn missing_names(names: &Vec<String>, ds: &Vec<&TsFn>) -> (r: Vec<String>)
    ensures
        texts(r@) == missing(texts(names@), names_of(borrowed_views(ds@))),
{
    let ghost active = texts(names@);
    let ghost written = names_of(borrowed_views(ds@));
    let mut out: Vec<String> = Vec::new();
    let mut i: usize = 0;
    assert(texts(out@) =~= Seq::empty());
    assert(active.take(0) =~= Seq::empty());
    while i < names.len()
        invariant
            i <= names.len(),
            active == texts(names@),
            written == names_of(borrowed_views(ds@)),
            texts(out@) == missing(active.take(i as int), written),
        decreases names.len() - i,
    {
        proof {
            assert(active.take(i + 1).drop_last() =~= active.take(i as int));
            assert(active.take(i + 1).last() == names[i as int]@);
        }
        if !is_written(ds, names[i].as_str()) {
            let ghost before = texts(out@);
            out.push(names[i].clone());
            proof {
                assert(texts(out@) =~= before.push(names[i as int]@));
            }
        }
        i += 1;
    }
    proof {
        assert(active.take(i as int) =~= active);
    }
    out
}

/// The names of the descriptors.
fn names_written(ds: &Vec<&TsFn>) -> (r: Vec<String>)
    ensures
        texts(r@) == names_of(borrowed_views(ds@)),
{
    let mut out: Vec<String> = Vec::new();
    let mut i: usize = 0;
    while i < ds.len()
        invariant
            i <= ds.len(),
            out.len() == i,
            forall|k: int| 0 <= k < i ==> out[k]@ == ds[k]@.name,
        decreases ds.len() - i,
    {
        out.push(ds[i].name().to_owned());
        i += 1;
    }
    assert(texts(out@) =~= names_of(borrowed_views(ds@)));
    out
}

/// The lines that declare the types of an endpoint.
fn declaration_lines_of(decls: &Vec<Declaration>) -> (r: Vec<String>)
    ensures
        texts(r@) == declaration_lines(declaration_views(decls@)),
{
    let mut out: Vec<String> = Vec::new();
    let mut i: usize = 0;
    while i < decls.len()
        invariant
            i <= decls.len(),
            out.len() == i,
            forall|k: int| 0 <= k < i ==> out[k]@ == DECLARATION_MARK@ + decls[k].text@,
        decreases decls.len() - i,
    {
        let mut line = String::new();
        line.append(DECLARATION_MARK);
        line.append(decls[i].text.as_str());
        proof {
            assert(Seq::<char>::empty() + DECLARATION_MARK@ =~= DECLARATION_MARK@);
        }
        out.push(line);
        i += 1;
    }
    assert(texts(out@) =~= declaration_lines(declaration_views(decls@)));
    out
}

/// The parameters with their types, the types moved into namespace `ns`.
fn typed_parameters_of(ns: &str, params: &Vec<(String, String)>) -> (r: Vec<String>)
    requires
        first_bad_parameter(parameter_views(params@), 0) == params.len(),
    ensures
        texts(r@) == typed_parameters(ns@, parameter_views(params@)),
{
    let ghost views = parameter_views(params@);
    let mut out: Vec<String> = Vec::new();
    let mut i: usize = 0;
    while i < params.len()
        invariant
            i <= params.len(),
            out.len() == i,
            views == parameter_views(params@),
            first_bad_parameter(views, i as int) == params.len(),
            forall|k: int| 0 <= k < i ==> out[k]@ == typed_parameter(ns@, views[k]),
        decreases params.len() - i,
    {
        proof {
            assert(views[i as int] == (params[i as int].0@, params[i as int].1@));
        }
        let ty = prefix_type(ns, params[i].1.as_str());
        let mut item = String::new();
        item.append(params[i].0.as_str());
        item.append(PARAMETER_TYPE);
        item.append(ty.as_str());
        proof {
            assert(Seq::<char>::empty() + params[i as int].0@ =~= params[i as int].0@);
        }
        out.push(item);
        i += 1;
    }
    assert(texts(out@) =~= typed_parameters(ns@, views));
    out
}

/// The names of the parameters.
fn parameter_names_of(params: &Vec<(String, String)>) -> (r: Vec<String>)
    ensures
        texts(r@) == parameter_names(parameter_views(params@)),
{
    let mut out: Vec<String> = Vec::new();
    let mut i: usize = 0;
    while i < params.len()
        invariant
            i <= params.len(),
            out.len() == i,
            forall|k: int| 0 <= k < i ==> out[k]@ == params[k].0@,
        decreases params.len() - i,
    {
        out.push(params[i].0.clone());
        i += 1;
    }
    assert(texts(out@) =~= parameter_names(parameter_views(params@)));
    out
}

/// Appends what is written for one endpoint.
fn append_block(out: &mut String, d: &TsFn, server_url: &str)
    requires
        malformed_type(d@) is None,
    ensures
        final(out)@ == old(out)@ + endpoint_block(d@, server_url@),
{
    proof {
        lemma_first_bad_parameter(d@.parameters, 0);
    }
    let name = d.name();
    let lines = declaration_lines_of(d.type_declarations());
    let params = typed_parameters_of(name, d.request_types());
    let names = parameter_names_of(d.request_types());
    let response = prefix_type(name, d.response_type());
    let mut block = String::new();
    block.append(NAMESPACE_OPEN);
    block.append(name);
    block.append(NAMESPACE_BODY);
    append_joined(&mut block, &lines, DECLARATION_SEPARATOR);
    block.append(FUNCTION_OPEN);
    block.append(name);
    block.append(PARAMETERS_OPEN);
    append_joined(&mut block, &params, LIST_SEPARATOR);
    block.append(RESPONSE_OPEN);
    block.append(response.as_str());
    block.append(REQUEST_OPEN);
    block.append(server_url);
    block.append(REQUEST_METHOD);
    block.append(name);
    block.append(REQUEST_BODY);
    append_joined(&mut block, &names, LIST_SEPARATOR);
    block.append(REQUEST_CLOSE);
    proof {
        assert(Seq::<char>::empty() + NAMESPACE_OPEN@ =~= NAMESPACE_OPEN@);
    }
    out.append(block.as_str());
}

/// Appends the blocks of the endpoints, one after the other.
fn append_blocks(out: &mut String, ds: &Vec<&TsFn>, server_url: &str)
    requires
        first_malformed(borrowed_views(ds@), 0) == ds.len(),
    ensures
        final(out)@ == old(out)@ + endpoint_blocks(borrowed_views(ds@), server_url@),
{
    let ghost start = out@;
    let ghost views = borrowed_views(ds@);
    let mut i: usize = 0;
    proof {
        assert(views.take(0) =~= Seq::empty());
        assert(start + endpoint_blocks(views.take(0), server_url@) =~= start);
    }
    while i < ds.len()
        invariant
            i <= ds.len(),
            views == borrowed_views(ds@),
            first_malformed(views, i as int) == ds.len(),
            out@ == start + endpoint_blocks(views.take(i as int), server_url@),
        decreases ds.len() - i,
    {
        proof {
            assert(views[i as int] == ds[i as int]@);
            assert(views.take(i + 1).drop_last() =~= views.take(i as int));
            assert(views.take(i + 1).last() == ds[i as int]@);
        }
        append_block(out, ds[i], server_url);
        proof {
            assert(start + endpoint_blocks(views.take(i as int), server_url@) + endpoint_block(
                ds[i as int]@,
                server_url@,
            ) =~= start + (endpoint_blocks(views.take(i as int), server_url@) + endpoint_block(
                ds[i as int]@,
                server_url@,
            )));
        }
        i += 1;
    }
    proof {
        assert(views.take(i as int) =~= views);
    }
}

/// The client module for the endpoints `fns`, of which `names` are bound to a
/// handler.
///
/// With `only_registered` only the bound endpoints are written, else all.
/// With `must_export` every bound name must be written. `transport` is the
/// text of the helper that sends the requests; it is put in as it is.
pub fn render(
    names: &Vec<String>,
    fns: &Vec<TsFn>,
    server_url: &str,
    transport: &str,
    only_registered: bool,
    must_export: bool,
) -> (r: Result<String, ExportError>)
    ensures
        match r {
            Ok(text) => client(
                texts(names@),
                descriptor_views(fns@),
                server_url@,
                transport@,
                only_registered,
                must_export,
            ) == Ok::<Seq<char>, Failure>(text@),
            Err(e) => client(
                texts(names@),
                descriptor_views(fns@),
                server_url@,
                transport@,
                only_registered,
                must_export,
            ) == Err::<Seq<char>, Failure>(e@),
        },
{
    let ds = emission_order(names, fns, only_registered);
    let ghost views = borrowed_views(ds@);
    let repeat = find_repeat(&ds);
    if repeat < ds.len() {
        proof {
            assert(views[repeat as int] == ds[repeat as int]@);
        }
        return Err(ExportError::DuplicateExportName(ds[repeat].name().to_owned()));
    }
    let bad = find_malformed(&ds);
    match bad.1 {
        Some(e) => {
            return Err(ExportError::MalformedTypeExpression(e));
        },
        None => {},
    }
    if must_export {
        let unexported = missing_names(names, &ds);
        if unexported.len() > 0 {
            return Err(ExportError::UnexportedActivation(unexported));
        }
    }
    let exported = names_written(&ds);
    let mut out = String::new();
    out.append(EXPORT_OPEN);
    append_joined(&mut out, &exported, EXPORT_SEPARATOR);
    out.append(EXPORT_CLOSE);
    append_blocks(&mut out, &ds, server_url);
    out.append(TRANSPORT_OPEN);
    out.append(transport);
    out.append(TRANSPORT_CLOSE);
    proof {
        assert(Seq::<char>::empty() + EXPORT_OPEN@ =~= EXPORT_OPEN@);
    }
    Ok(out)
}

} // verus!
