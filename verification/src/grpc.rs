//! The decisions around a unary gRPC call: which service and method a
//! request names, the request path, URI, authority and metadata, the
//! analysis that merges descriptor services, and the error messages.
use vstd::prelude::*;

use crate::paths::{descriptor_file_matches, descriptor_matches};
use crate::proto::{
    merge_one, merge_service_lines, service_views, AnalysisView, MethodView, ProtoAnalysis,
    ProtoServiceInfo, ServiceView,
};
use crate::text::{
    chars_of, ends_with, has_prefix, has_suffix, push_all, same, starts_with, string_from, trim,
    trimmed,
};

verus! {

// ---------------------------------------------------------------------------
// Errors
// ---------------------------------------------------------------------------
/// Why a request cannot be made.
#[derive(Debug)]
pub enum RequestError {
    /// No service has this name.
    ServiceNotFound(String),
    /// The service has no method of this name.
    MethodNotFound(String),
    /// The method streams requests or responses.
    StreamingUnsupported,
}

/// The message of an error.
pub open spec fn error_text(e: RequestError) -> Seq<char> {
    match e {
        RequestError::ServiceNotFound(s) => "service not found: "@ + s@,
        RequestError::MethodNotFound(m) => "method not found: "@ + m@,
        RequestError::StreamingUnsupported => "streaming RPC is recognized but not supported in this MVP"@,
    }
}

fn concat(a: &str, b: &str) -> (r: String)
    ensures
        r@ == a@ + b@,
{
    let mut v = chars_of(a);
    push_all(&mut v, &chars_of(b));
    string_from(&v)
}

/// The message of an error, as the commands report it.
pub fn to_string(error: &RequestError) -> (r: String)
    ensures
        r@ == error_text(*error),
{
    match error {
        RequestError::ServiceNotFound(s) => concat("service not found: ", s.as_str()),
        RequestError::MethodNotFound(m) => concat("method not found: ", m.as_str()),
        RequestError::StreamingUnsupported => string_from(
            &chars_of("streaming RPC is recognized but not supported in this MVP"),
        ),
    }
}

// ---------------------------------------------------------------------------
// Services of a descriptor pool
// ---------------------------------------------------------------------------
/// A service of a compiled descriptor pool, with the name of its file.
#[derive(Debug)]
pub struct PoolService {
    pub file_name: String,
    pub service: ProtoServiceInfo,
}

/// The services of `pool` whose file is `file_path`, in pool order.
pub open spec fn services_in_file(pool: Seq<PoolService>, file_path: Seq<char>, k: int) -> Seq<
    ServiceView,
>
    decreases k,
{
    if k <= 0 {
        seq![]
    } else {
        let before = services_in_file(pool, file_path, k - 1);
        if descriptor_matches(pool[k - 1].file_name@, file_path) {
            before.push(pool[k - 1].service@)
        } else {
            before
        }
    }
}

/// The services that the file at `file_path` declares, out of all the
/// services of a descriptor pool.
pub fn services_from_pool(pool: Vec<PoolService>, file_path: &str) -> (r: Vec<ProtoServiceInfo>)
    ensures
        service_views(r@) == services_in_file(pool@, file_path@, pool@.len() as int),
{
    let ghost all = pool@;
    let mut rest = pool;
    let mut back: Vec<ProtoServiceInfo> = Vec::new();
    let ghost mut kept: Seq<ServiceView> = seq![];
    // From the back, keeping the services of the file.
    while rest.len() > 0
        invariant
            rest@ == all.take(rest@.len() as int),
            rest@.len() <= all.len(),
            services_in_file(all, file_path@, all.len() as int) == services_in_file(
                all,
                file_path@,
                rest@.len() as int,
            ) + kept,
            service_views(back@) == kept.reverse(),
        decreases rest@.len(),
    {
        let ghost n: int = rest@.len() as int;
        let item = rest.pop().unwrap();
        assert(rest@ =~= all.take(rest@.len() as int));
        assert(item == all[n - 1]);
        if descriptor_file_matches(item.file_name.as_str(), file_path) {
            let ghost sv = service_views(back@);
            let PoolService { file_name: _, service } = item;
            let ghost v = service@;
            back.push(service);
            proof {
                assert(service_views(back@) =~= sv.push(v));
                assert(seq![v] + kept =~= (seq![v] + kept));
                assert((seq![v] + kept).reverse() =~= kept.reverse().push(v));
                assert(services_in_file(all, file_path@, n) =~= services_in_file(
                    all,
                    file_path@,
                    n - 1,
                ).push(v));
                assert(services_in_file(all, file_path@, n - 1).push(v) + kept =~= services_in_file(
                    all,
                    file_path@,
                    n - 1,
                ) + (seq![v] + kept));
                kept = seq![v] + kept;
            }
        }
    }
    let mut r: Vec<ProtoServiceInfo> = Vec::new();
    while back.len() > 0
        invariant
            service_views(back@) + service_views(r@).reverse() == kept.reverse(),
        decreases back@.len(),
    {
        let ghost bv = service_views(back@);
        let ghost rv = service_views(r@);
        let s = back.pop().unwrap();
        let ghost v = s@;
        r.push(s);
        proof {
            assert(bv =~= service_views(back@).push(v));
            assert(service_views(r@) =~= rv.push(v));
            assert(rv.push(v).reverse() =~= seq![v] + rv.reverse());
            assert(service_views(back@) + service_views(r@).reverse() =~= bv + rv.reverse());
        }
    }
    proof {
        assert(services_in_file(all, file_path@, 0) =~= seq![]);
        assert(service_views(back@) =~= seq![]);
        assert(service_views(r@).reverse().reverse() =~= service_views(r@));
        assert(kept.reverse().reverse() =~= kept);
        assert(service_views(r@) =~= kept);
    }
    r
}

/// The analysis with what a compiled descriptor adds: the descriptor's
/// services with the reader's line numbers, or a diagnostic why there is
/// no descriptor.
pub open spec fn with_descriptor(
    analysis: AnalysisView,
    descriptor: Result<Seq<ServiceView>, Seq<char>>,
) -> AnalysisView {
    match descriptor {
        Ok(services) => AnalysisView {
            descriptor_available: true,
            services: Seq::new(services.len(), |i: int| merge_one(analysis.services, services[i])),
            ..analysis
        },
        Err(e) => AnalysisView {
            diagnostics: analysis.diagnostics.push("Descriptor unavailable: "@ + e),
            ..analysis
        },
    }
}

/// Completes a lightweight analysis with the services of the compiled
/// descriptor of the file, or with the reason it could not be compiled.
pub fn finish_analysis(
    analysis: ProtoAnalysis,
    descriptor: Result<Vec<ProtoServiceInfo>, String>,
) -> (r: ProtoAnalysis)
    ensures
        r@ == with_descriptor(
            analysis@,
            match descriptor {
                Ok(s) => Ok(service_views(s@)),
                Err(e) => Err(e@),
            },
        ),
{
    let ProtoAnalysis { package_name, services, symbols, descriptor_available, diagnostics } =
        analysis;
    match descriptor {
        Ok(found) => {
            let ghost fv = found@;
            let merged = merge_service_lines(services, found);
            let r = ProtoAnalysis {
                package_name,
                services: merged,
                symbols,
                descriptor_available: true,
                diagnostics,
            };
            assert(r@.services =~= Seq::new(
                service_views(fv).len(),
                |i: int| merge_one(analysis@.services, service_views(fv)[i]),
            ));
            r
        },
        Err(e) => {
            let mut diagnostics = diagnostics;
            let ghost dv = diagnostics.deep_view();
            let d = concat("Descriptor unavailable: ", e.as_str());
            diagnostics.push(d);
            let r = ProtoAnalysis {
                package_name,
                services,
                symbols,
                descriptor_available,
                diagnostics,
            };
            assert(r@.diagnostics =~= dv.push("Descriptor unavailable: "@ + e@));
            r
        },
    }
}

// ---------------------------------------------------------------------------
// Finding the service and the method of a request
// ---------------------------------------------------------------------------
/// The first service at or after `i` whose full name is `name`, or -1.
pub open spec fn first_full_name(ss: Seq<ServiceView>, name: Seq<char>, i: int) -> int
    decreases ss.len() - i,
{
    if i < 0 || i >= ss.len() {
        -1
    } else if ss[i].full_name == name {
        i
    } else {
        first_full_name(ss, name, i + 1)
    }
}

/// A service named `name`, or whose full name ends with `name`.
pub open spec fn suffix_matches(s: ServiceView, name: Seq<char>) -> bool {
    s.name == name || ends_with(s.full_name, name)
}

/// The first service at or after `i` that `suffix_matches`, or -1.
pub open spec fn first_suffix(ss: Seq<ServiceView>, name: Seq<char>, i: int) -> int
    decreases ss.len() - i,
{
    if i < 0 || i >= ss.len() {
        -1
    } else if suffix_matches(ss[i], name) {
        i
    } else {
        first_suffix(ss, name, i + 1)
    }
}

/// The service that `name` picks: the one with that full name, else the
/// first found by short name or name suffix.
pub open spec fn pick_service(ss: Seq<ServiceView>, name: Seq<char>) -> int {
    let exact = first_full_name(ss, name, 0);
    if exact >= 0 {
        exact
    } else {
        first_suffix(ss, name, 0)
    }
}

/// The first method at or after `i` named `name`, or -1.
pub open spec fn method_index(ms: Seq<MethodView>, name: Seq<char>, i: int) -> int
    decreases ms.len() - i,
{
    if i < 0 || i >= ms.len() {
        -1
    } else if ms[i].name == name {
        i
    } else {
        method_index(ms, name, i + 1)
    }
}

pub proof fn lemma_first_full_name(ss: Seq<ServiceView>, name: Seq<char>, i: int)
    requires
        0 <= i,
    ensures
        -1 <= first_full_name(ss, name, i) < ss.len(),
        first_full_name(ss, name, i) >= 0 ==> i <= first_full_name(ss, name, i)
            && ss[first_full_name(ss, name, i)].full_name == name,
        forall|j: int|
            i <= j < ss.len() && (first_full_name(ss, name, i) < 0 || j < first_full_name(
                ss,
                name,
                i,
            )) ==> ss[j].full_name != name,
    decreases ss.len() - i,
{
    if i < ss.len() && ss[i].full_name != name {
        lemma_first_full_name(ss, name, i + 1);
    }
}

pub proof fn lemma_first_suffix(ss: Seq<ServiceView>, name: Seq<char>, i: int)
    requires
        0 <= i,
    ensures
        -1 <= first_suffix(ss, name, i) < ss.len(),
        first_suffix(ss, name, i) >= 0 ==> i <= first_suffix(ss, name, i) && suffix_matches(
            ss[first_suffix(ss, name, i)],
            name,
        ),
        forall|j: int|
            i <= j < ss.len() && (first_suffix(ss, name, i) < 0 || j < first_suffix(ss, name, i))
                ==> !suffix_matches(ss[j], name),
    decreases ss.len() - i,
{
    if i < ss.len() && !suffix_matches(ss[i], name) {
        lemma_first_suffix(ss, name, i + 1);
    }
}

pub proof fn lemma_method_index(ms: Seq<MethodView>, name: Seq<char>, i: int)
    requires
        0 <= i,
    ensures
        -1 <= method_index(ms, name, i) < ms.len(),
        method_index(ms, name, i) >= 0 ==> i <= method_index(ms, name, i) && ms[method_index(
            ms,
            name,
            i,
        )].name == name,
        forall|j: int|
            i <= j < ms.len() && (method_index(ms, name, i) < 0 || j < method_index(ms, name, i))
                ==> ms[j].name != name,
    decreases ms.len() - i,
{
    if i < ms.len() && ms[i].name != name {
        lemma_method_index(ms, name, i + 1);
    }
}

/// The first service named `service_name` or whose full name ends with it.
pub fn find_service_by_suffix(services: &Vec<ProtoServiceInfo>, service_name: &str) -> (r: Option<
    usize,
>)
    ensures
        match r {
            Some(i) => first_suffix(service_views(services@), service_name@, 0) == i,
            None => first_suffix(service_views(services@), service_name@, 0) == -1,
        },
{
    let ghost ss = service_views(services@);
    proof {
        lemma_first_suffix(ss, service_name@, 0);
    }
    let name = chars_of(service_name);
    let mut i: usize = 0;
    while i < services.len()
        invariant
            i <= services.len(),
            ss == service_views(services@),
            name@ == service_name@,
            forall|j: int| 0 <= j < i ==> !suffix_matches(ss[j], service_name@),
        decreases services.len() - i,
    {
        assert(ss[i as int] == services@[i as int]@);
        let full = chars_of(services[i].full_name.as_str());
        if same(&chars_of(services[i].name.as_str()), &name) || has_suffix(&full, &name) {
            proof {
                lemma_first_suffix(ss, service_name@, 0);
                let f = first_suffix(ss, service_name@, 0);
                if f >= 0 && f < i {
                    assert(!suffix_matches(ss[f], service_name@));
                }
            }
            return Some(i);
        }
        i = i + 1;
    }
    proof {
        lemma_first_suffix(ss, service_name@, 0);
        let f = first_suffix(ss, service_name@, 0);
        if f >= 0 {
            assert(!suffix_matches(ss[f], service_name@));
        }
    }
    None
}

/// The service that `service_name` picks: the service with that full name,
/// else the first one with that short name or name suffix.
pub fn find_service(services: &Vec<ProtoServiceInfo>, service_name: &str) -> (r: Option<usize>)
    ensures
        match r {
            Some(i) => pick_service(service_views(services@), service_name@) == i,
            None => pick_service(service_views(services@), service_name@) == -1,
        },
{
    let ghost ss = service_views(services@);
    let mut i: usize = 0;
    while i < services.len()
        invariant
            i <= services.len(),
            ss == service_views(services@),
            forall|j: int| 0 <= j < i ==> ss[j].full_name != service_name@,
        decreases services.len() - i,
    {
        assert(ss[i as int] == services@[i as int]@);
        if same(&chars_of(services[i].full_name.as_str()), &chars_of(service_name)) {
            proof {
                lemma_first_full_name(ss, service_name@, 0);
                let f = first_full_name(ss, service_name@, 0);
                if f >= 0 && f < i {
                    assert(ss[f].full_name != service_name@);
                }
            }
            return Some(i);
        }
        i = i + 1;
    }
    proof {
        lemma_first_full_name(ss, service_name@, 0);
        let f = first_full_name(ss, service_name@, 0);
        if f >= 0 {
            assert(ss[f].full_name != service_name@);
        }
    }
    find_service_by_suffix(services, service_name)
}

/// The service and method that a request names, or the message of what
/// was not found.
pub open spec fn resolve(ss: Seq<ServiceView>, service_name: Seq<char>, method_name: Seq<char>) -> Result<
    (int, int),
    Seq<char>,
> {
    let s = pick_service(ss, service_name);
    if s < 0 {
        Err("service not found: "@ + service_name)
    } else {
        let m = method_index(ss[s].methods, method_name, 0);
        if m < 0 {
            Err("method not found: "@ + method_name)
        } else {
            Ok((s, m))
        }
    }
}

/// Finds the service and then the method that a request names; an error
/// names what was not found.
pub fn resolve_method(
    services: &Vec<ProtoServiceInfo>,
    service_name: &str,
    method_name: &str,
) -> (r: Result<(usize, usize), RequestError>)
    ensures
        match r {
            Ok((s, m)) => resolve(service_views(services@), service_name@, method_name@) == Ok::<
                (int, int),
                Seq<char>,
            >((s as int, m as int)),
            Err(e) => resolve(service_views(services@), service_name@, method_name@) == Err::<
                (int, int),
                Seq<char>,
            >(error_text(e)),
        },
        r is Ok ==> r->Ok_0.0 < services@.len() && r->Ok_0.1 < services@[r->Ok_0.0 as int].methods@.len(),
{
    let ghost ss = service_views(services@);
    let s = match find_service(services, service_name) {
        Some(s) => s,
        None => {
            return Err(RequestError::ServiceNotFound(string_from(&chars_of(service_name))));
        },
    };
    proof {
        lemma_first_full_name(ss, service_name@, 0);
        lemma_first_suffix(ss, service_name@, 0);
    }
    let service = &services[s];
    assert(ss[s as int] == service@);
    let ghost ms = service@.methods;
    let mut m: usize = 0;
    while m < service.methods.len()
        invariant
            m <= service.methods.len(),
            s < services.len(),
            ss == service_views(services@),
            pick_service(ss, service_name@) == s,
            ss[s as int] == service@,
            *service == services@[s as int],
            ms == crate::proto::method_views(service.methods@),
            forall|j: int| 0 <= j < m ==> ms[j].name != method_name@,
        decreases service.methods.len() - m,
    {
        assert(ms[m as int] == service.methods@[m as int]@);
        if same(&chars_of(service.methods[m].name.as_str()), &chars_of(method_name)) {
            proof {
                lemma_method_index(ms, method_name@, 0);
                let f = method_index(ms, method_name@, 0);
                if f >= 0 && f < m {
                    assert(ms[f].name != method_name@);
                }
            }
            return Ok((s, m));
        }
        m = m + 1;
    }
    proof {
        lemma_method_index(ms, method_name@, 0);
        let f = method_index(ms, method_name@, 0);
        if f >= 0 {
            assert(ms[f].name != method_name@);
        }
    }
    Err(RequestError::MethodNotFound(string_from(&chars_of(method_name))))
}

/// Only unary methods can be called.
pub fn check_unary(client_streaming: bool, server_streaming: bool) -> (r: Result<(), RequestError>)
    ensures
        r is Ok <==> !client_streaming && !server_streaming,
        r is Err ==> r->Err_0 is StreamingUnsupported,
{
    if client_streaming || server_streaming {
        Err(RequestError::StreamingUnsupported)
    } else {
        Ok(())
    }
}

// ---------------------------------------------------------------------------
// Paths, URIs, authority, metadata
// ---------------------------------------------------------------------------
/// `/Service.Full.Name/Method`.
pub open spec fn method_path(service_full_name: Seq<char>, method_name: Seq<char>) -> Seq<char> {
    seq!['/'] + service_full_name + seq!['/'] + method_name
}

/// The gRPC path of a method: `/<service full name>/<method>`.
pub fn grpc_method_path(service_full_name: &str, method_name: &str) -> (r: String)
    ensures
        r@ == method_path(service_full_name@, method_name@),
{
    let mut v: Vec<char> = Vec::new();
    v.push('/');
    push_all(&mut v, &chars_of(service_full_name));
    v.push('/');
    push_all(&mut v, &chars_of(method_name));
    assert(v@ =~= method_path(service_full_name@, method_name@));
    string_from(&v)
}

/// A path trimmed and made to start with `/`.
pub open spec fn normalized_path(path: Seq<char>) -> Seq<char> {
    let t = trim(path);
    if starts_with(t, seq!['/']) {
        t
    } else {
        seq!['/'] + t
    }
}

/// A gRPC path trimmed, with a leading `/` added when it has none.
pub fn normalize_grpc_path(path: &str) -> (r: String)
    ensures
        r@ == normalized_path(path@),
{
    let t = trimmed(&chars_of(path));
    let slash = vec!['/'];
    assert(slash@ =~= seq!['/']);
    if has_prefix(&t, &slash) {
        string_from(&t)
    } else {
        let mut v = slash;
        push_all(&mut v, &t);
        string_from(&v)
    }
}

/// The path a request uses: the given path when it is not blank, made to
/// start with `/`; otherwise the method's own path.
pub open spec fn request_path_of(
    grpc_path: Option<Seq<char>>,
    service_full_name: Seq<char>,
    method_name: Seq<char>,
) -> Seq<char> {
    match grpc_path {
        Some(p) if trim(p).len() > 0 => normalized_path(p),
        _ => method_path(service_full_name, method_name),
    }
}

/// The path a request uses.
pub fn request_path(grpc_path: Option<String>, service_full_name: &str, method_name: &str) -> (r:
    String)
    ensures
        r@ == request_path_of(
            match grpc_path {
                Some(p) => Some(p@),
                None => None,
            },
            service_full_name@,
            method_name@,
        ),
{
    match grpc_path {
        Some(p) => {
            if trimmed(&chars_of(p.as_str())).len() > 0 {
                normalize_grpc_path(p.as_str())
            } else {
                grpc_method_path(service_full_name, method_name)
            }
        },
        None => grpc_method_path(service_full_name, method_name),
    }
}

/// `https` with TLS, `http` without.
pub open spec fn scheme(use_tls: bool) -> Seq<char> {
    if use_tls {
        "https"@
    } else {
        "http"@
    }
}

/// The URI of an endpoint: as given when it names its scheme, else with the
/// scheme that TLS calls for.
pub open spec fn endpoint_uri(endpoint: Seq<char>, use_tls: bool) -> Seq<char> {
    if starts_with(endpoint, "http://"@) || starts_with(endpoint, "https://"@) {
        endpoint
    } else {
        scheme(use_tls) + "://"@ + endpoint
    }
}

fn scheme_chars(use_tls: bool) -> (r: Vec<char>)
    ensures
        r@ == scheme(use_tls),
{
    if use_tls {
        chars_of("https")
    } else {
        chars_of("http")
    }
}

/// The URI to connect to for an endpoint.
pub fn request_uri(endpoint: &str, use_tls: bool) -> (r: String)
    ensures
        r@ == endpoint_uri(endpoint@, use_tls),
{
    let e = chars_of(endpoint);
    if has_prefix(&e, &chars_of("http://")) || has_prefix(&e, &chars_of("https://")) {
        return string_from(&e);
    }
    let mut v = scheme_chars(use_tls);
    push_all(&mut v, &chars_of("://"));
    push_all(&mut v, &e);
    string_from(&v)
}

/// The authority a request names: the given one when it is not blank,
/// trimmed; otherwise the service's package name.
pub open spec fn authority_of(authority: Option<Seq<char>>, package_name: Seq<char>) -> Seq<char> {
    match authority {
        Some(a) if trim(a).len() > 0 => trim(a),
        _ => package_name,
    }
}

/// The authority a request names.
pub fn effective_authority(authority: Option<String>, package_name: &str) -> (r: String)
    ensures
        r@ == authority_of(
            match authority {
                Some(a) => Some(a@),
                None => None,
            },
            package_name@,
        ),
{
    match authority {
        Some(a) => {
            let t = trimmed(&chars_of(a.as_str()));
            if t.len() > 0 {
                string_from(&t)
            } else {
                string_from(&chars_of(package_name))
            }
        },
        None => string_from(&chars_of(package_name)),
    }
}

/// The origin a request announces: `<scheme>://<authority>`, or none when
/// the authority is empty.
pub fn request_origin(authority: &str, use_tls: bool) -> (r: Option<String>)
    ensures
        authority@.len() == 0 ==> r is None,
        authority@.len() > 0 ==> r is Some && r->Some_0@ == scheme(use_tls) + "://"@ + authority@,
{
    let a = chars_of(authority);
    if a.len() == 0 {
        return None;
    }
    let mut v = scheme_chars(use_tls);
    push_all(&mut v, &chars_of("://"));
    push_all(&mut v, &a);
    Some(string_from(&v))
}

/// The metadata entries that a request sends: each key and value trimmed,
/// the entries with a blank key left out.
pub open spec fn metadata_of(items: Seq<(Seq<char>, Seq<char>)>, k: int) -> Seq<(Seq<char>, Seq<char>)>
    decreases k,
{
    if k <= 0 {
        seq![]
    } else {
        let before = metadata_of(items, k - 1);
        let (key, value) = items[k - 1];
        if trim(key).len() == 0 {
            before
        } else {
            before.push((trim(key), trim(value)))
        }
    }
}

pub open spec fn pair_views(items: Seq<(String, String)>) -> Seq<(Seq<char>, Seq<char>)> {
    Seq::new(items.len(), |i: int| (items[i].0@, items[i].1@))
}

/// The metadata entries that a request sends.
pub fn request_metadata(items: &Vec<(String, String)>) -> (r: Vec<(String, String)>)
    ensures
        pair_views(r@) == metadata_of(pair_views(items@), items@.len() as int),
{
    let ghost iv = pair_views(items@);
    let mut r: Vec<(String, String)> = Vec::new();
    let mut i: usize = 0;
    while i < items.len()
        invariant
            i <= items.len(),
            iv == pair_views(items@),
            pair_views(r@) == metadata_of(iv, i as int),
        decreases items.len() - i,
    {
        let key = trimmed(&chars_of(items[i].0.as_str()));
        if key.len() > 0 {
            let value = trimmed(&chars_of(items[i].1.as_str()));
            let ghost before = pair_views(r@);
            r.push((string_from(&key), string_from(&value)));
            assert(pair_views(r@) =~= before.push((key@, value@)));
        }
        i = i + 1;
    }
    r
}

// ---------------------------------------------------------------------------
// Error messages of a failed call
// ---------------------------------------------------------------------------
/// What `tonic::Code::description` says of the code with this number
/// (`tonic::Code::from_i32` takes unknown numbers to `Unknown`).
pub open spec fn code_text(code: int) -> Seq<char> {
    if code == 0 {
        "The operation completed successfully"@
    } else if code == 1 {
        "The operation was cancelled"@
    } else if code == 3 {
        "Client specified an invalid argument"@
    } else if code == 4 {
        "Deadline expired before operation could complete"@
    } else if code == 5 {
        "Some requested entity was not found"@
    } else if code == 6 {
        "Some entity that we attempted to create already exists"@
    } else if code == 7 {
        "The caller does not have permission to execute the specified operation"@
    } else if code == 8 {
        "Some resource has been exhausted"@
    } else if code == 9 {
        "The system is not in a state required for the operation's execution"@
    } else if code == 10 {
        "The operation was aborted"@
    } else if code == 11 {
        "Operation was attempted past the valid range"@
    } else if code == 12 {
        "Operation is not implemented or not supported"@
    } else if code == 13 {
        "Internal error"@
    } else if code == 14 {
        "The service is currently unavailable"@
    } else if code == 15 {
        "Unrecoverable data loss or corruption"@
    } else if code == 16 {
        "The request does not have valid authentication credentials"@
    } else {
        "Unknown error"@
    }
}

/// `tonic::Code::from_i32(code)` shown with `Display`, which writes the
/// code's `description()`. The contract states the table of descriptions
/// that tonic's source holds, with unknown numbers read as `Unknown`.
#[verifier::external_body]
fn code_description(code: i32) -> (r: String)
    ensures
        r@ == code_text(code as int),
{
    tonic::Code::from_i32(code).to_string()
}

/// The hint that goes with a status code.
pub open spec fn hint_text(code: int) -> Seq<char> {
    if code == 12 {
        "The server is reachable, but this gRPC method path is not registered. Check whether the endpoint is native gRPC, grpc-web/TRPC/HTTP gateway, whether TLS is required, and whether the service package/name matches the server."@
    } else if code == 14 {
        "The endpoint is unreachable or refused the connection. Check host, port, network, and TLS."@
    } else if code == 13 {
        "The server accepted the call but failed while handling it. Check server logs and response type."@
    } else {
        "The server returned a gRPC status error."@
    }
}

fn hint_chars(code: i32) -> (r: Vec<char>)
    ensures
        r@ == hint_text(code as int),
{
    if code == 12 {
        chars_of(
            "The server is reachable, but this gRPC method path is not registered. Check whether the endpoint is native gRPC, grpc-web/TRPC/HTTP gateway, whether TLS is required, and whether the service package/name matches the server.",
        )
    } else if code == 14 {
        chars_of(
            "The endpoint is unreachable or refused the connection. Check host, port, network, and TLS.",
        )
    } else if code == 13 {
        chars_of(
            "The server accepted the call but failed while handling it. Check server logs and response type.",
        )
    } else {
        chars_of("The server returned a gRPC status error.")
    }
}

/// `true` or `false`.
pub open spec fn bool_text(b: bool) -> Seq<char> {
    if b {
        "true"@
    } else {
        "false"@
    }
}

/// The report of a failed call.
pub open spec fn error_message(
    code: int,
    message: Seq<char>,
    path: Seq<char>,
    endpoint: Seq<char>,
    authority: Seq<char>,
    use_tls: bool,
) -> Seq<char> {
    "gRPC "@ + code_text(code) + ": "@ + message + "\npath: "@ + path + "\nendpoint: "@ + endpoint
        + "\nauthority: "@ + authority + "\ntls: "@ + bool_text(use_tls) + "\nhint: "@ + hint_text(
        code,
    )
}

/// The report of a failed call: the status, where the call went, and a hint
/// for the unimplemented, unavailable and internal codes.
pub fn grpc_error_message(
    code: i32,
    message: &str,
    path: &str,
    endpoint: &str,
    authority: &str,
    use_tls: bool,
) -> (r: String)
    ensures
        r@ == error_message(code as int, message@, path@, endpoint@, authority@, use_tls),
{
    let mut v = chars_of("gRPC ");
    push_all(&mut v, &chars_of(code_description(code).as_str()));
    push_all(&mut v, &chars_of(": "));
    push_all(&mut v, &chars_of(message));
    push_all(&mut v, &chars_of("\npath: "));
    push_all(&mut v, &chars_of(path));
    push_all(&mut v, &chars_of("\nendpoint: "));
    push_all(&mut v, &chars_of(endpoint));
    push_all(&mut v, &chars_of("\nauthority: "));
    push_all(&mut v, &chars_of(authority));
    push_all(&mut v, &chars_of("\ntls: "));
    if use_tls {
        push_all(&mut v, &chars_of("true"));
    } else {
        push_all(&mut v, &chars_of("false"));
    }
    push_all(&mut v, &chars_of("\nhint: "));
    push_all(&mut v, &hint_chars(code));
    string_from(&v)
}

// ---------------------------------------------------------------------------
// Planning a call
// ---------------------------------------------------------------------------
/// The service and method a call goes to: as `resolve` finds them, when the
/// method is unary.
pub open spec fn call_resolution(ss: Seq<ServiceView>, service_name: Seq<char>, method_name: Seq<char>) -> Result<
    (int, int),
    Seq<char>,
> {
    match resolve(ss, service_name, method_name) {
        Err(e) => Err(e),
        Ok((s, m)) => if ss[s].methods[m].client_streaming || ss[s].methods[m].server_streaming {
            Err(error_text(RequestError::StreamingUnsupported))
        } else {
            Ok((s, m))
        },
    }
}

/// Finds the service and method a call names and checks that the method is
/// unary.
pub fn resolve_call(services: &Vec<ProtoServiceInfo>, service_name: &str, method_name: &str) -> (r:
    Result<(usize, usize), RequestError>)
    ensures
        match r {
            Ok((s, m)) => call_resolution(service_views(services@), service_name@, method_name@)
                == Ok::<(int, int), Seq<char>>((s as int, m as int)),
            Err(e) => call_resolution(service_views(services@), service_name@, method_name@)
                == Err::<(int, int), Seq<char>>(error_text(e)),
        },
        r is Ok ==> r->Ok_0.0 < services@.len() && r->Ok_0.1 < services@[r->Ok_0.0 as int].methods@.len(),
{
    let (s, m) = match resolve_method(services, service_name, method_name) {
        Ok(found) => found,
        Err(e) => {
            return Err(e);
        },
    };
    let method = &services[s].methods[m];
    assert(service_views(services@)[s as int].methods[m as int] == method@);
    match check_unary(method.client_streaming, method.server_streaming) {
        Ok(()) => Ok((s, m)),
        Err(e) => Err(e),
    }
}

/// Where and how a unary call is sent.
#[derive(Debug)]
pub struct CallTarget {
    /// The URI to connect to.
    pub uri: String,
    /// The authority of the call.
    pub authority: String,
    /// The origin announced, when the authority is not empty.
    pub origin: Option<String>,
    /// The gRPC path.
    pub path: String,
    /// The metadata entries sent.
    pub metadata: Vec<(String, String)>,
}

pub open spec fn opt_string(o: Option<String>) -> Option<Seq<char>> {
    match o {
        Some(s) => Some(s@),
        None => None,
    }
}

/// The origin a call announces for an authority.
pub open spec fn origin_of(authority: Seq<char>, use_tls: bool) -> Option<Seq<char>> {
    if authority.len() == 0 {
        None
    } else {
        Some(scheme(use_tls) + "://"@ + authority)
    }
}

/// Where and how a call to `service_full_name`/`method_name` is sent:
/// the endpoint's URI, the authority (given, else the package), its origin,
/// the path (given, else the method's own), and the metadata.
pub fn call_target(
    endpoint: &str,
    use_tls: bool,
    grpc_path: Option<String>,
    authority: Option<String>,
    package_name: &str,
    service_full_name: &str,
    method_name: &str,
    metadata: &Vec<(String, String)>,
) -> (r: CallTarget)
    ensures
        r.uri@ == endpoint_uri(endpoint@, use_tls),
        r.authority@ == authority_of(opt_string(authority), package_name@),
        opt_string(r.origin) == origin_of(r.authority@, use_tls),
        r.path@ == request_path_of(opt_string(grpc_path), service_full_name@, method_name@),
        pair_views(r.metadata@) == metadata_of(pair_views(metadata@), metadata@.len() as int),
{
    let uri = request_uri(endpoint, use_tls);
    let ghost av = opt_string(authority);
    let ghost gv = opt_string(grpc_path);
    let authority = effective_authority(authority, package_name);
    assert(authority@ == authority_of(av, package_name@));
    let origin = request_origin(authority.as_str(), use_tls);
    let path = request_path(grpc_path, service_full_name, method_name);
    assert(path@ == request_path_of(gv, service_full_name@, method_name@));
    let metadata = request_metadata(metadata);
    CallTarget { uri, authority, origin, path, metadata }
}

// ---------------------------------------------------------------------------
// Whether the parts of a call parse
// ---------------------------------------------------------------------------
/// Whether `tonic::transport::Endpoint::from_shared` accepts a URI.
pub uninterp spec fn endpoint_accepted(uri: Seq<char>) -> bool;

/// The message `http::Uri::from_str` rejects a text with, if it does.
pub uninterp spec fn uri_problem(text: Seq<char>) -> Option<Seq<char>>;

/// What `http::uri::PathAndQuery::from_str` gives for a path: the path as
/// it displays, or the message of its error.
pub uninterp spec fn path_and_query(path: Seq<char>) -> Result<Seq<char>, Seq<char>>;

/// Whether `tonic::metadata::MetadataKey::<Ascii>::from_str` accepts a key.
pub uninterp spec fn metadata_key_accepted(key: Seq<char>) -> bool;

/// `tonic::transport::Endpoint::from_shared` on a URI: whether it accepts it
/// is left to the name `endpoint_accepted`; every error it gives is of the
/// invalid-URI kind, which displays as `invalid URI`.
#[verifier::external_body]
fn endpoint_check(uri: &str) -> (r: Result<(), String>)
    ensures
        r is Ok <==> endpoint_accepted(uri@),
        r is Err ==> r->Err_0@ == "invalid URI"@,
{
    match tonic::transport::Endpoint::from_shared(uri.to_string()) {
        Ok(_) => Ok(()),
        Err(e) => Err(e.to_string()),
    }
}

/// `http::Uri::from_str`: whether it accepts the text, and the message of
/// its error, are left to the name `uri_problem`.
#[verifier::external_body]
fn uri_check(text: &str) -> (r: Result<(), String>)
    ensures
        match r {
            Ok(()) => uri_problem(text@) is None,
            Err(e) => uri_problem(text@) == Some(e@),
        },
{
    match text.parse::<http::Uri>() {
        Ok(_) => Ok(()),
        Err(e) => Err(e.to_string()),
    }
}

/// `http::uri::PathAndQuery::from_str`, shown with `Display`; the result is
/// left to the name `path_and_query`.
#[verifier::external_body]
fn path_check(path: &str) -> (r: Result<String, String>)
    ensures
        match r {
            Ok(p) => path_and_query(path@) == Ok::<Seq<char>, Seq<char>>(p@),
            Err(e) => path_and_query(path@) == Err::<Seq<char>, Seq<char>>(e@),
        },
{
    match path.parse::<http::uri::PathAndQuery>() {
        Ok(p) => Ok(p.to_string()),
        Err(e) => Err(e.to_string()),
    }
}

/// `tonic::metadata::MetadataKey::<Ascii>::from_str`: whether it accepts the
/// key is left to the name `metadata_key_accepted`; its error displays as
/// `invalid gRPC metadata key name`.
#[verifier::external_body]
fn metadata_key_check(key: &str) -> (r: Result<(), String>)
    ensures
        r is Ok <==> metadata_key_accepted(key@),
        r is Err ==> r->Err_0@ == "invalid gRPC metadata key name"@,
{
    match key.parse::<tonic::metadata::MetadataKey<tonic::metadata::Ascii>>() {
        Ok(_) => Ok(()),
        Err(e) => Err(e.to_string()),
    }
}

/// A text `MetadataValue::<Ascii>::from_str` accepts: every character is a
/// tab, or neither a control character nor DEL (its UTF-8 bytes are then
/// 32 or more, and not 127).
pub open spec fn metadata_value_valid(value: Seq<char>) -> bool {
    forall|i: int|
        0 <= i < value.len() ==> ((#[trigger] value[i] as u32) >= 32 && (value[i] as u32) != 127)
            || value[i] == '\t'
}

/// `tonic::metadata::MetadataValue::<Ascii>::from_str`: as its source shows,
/// it accepts exactly the texts whose bytes are all a tab or at least 32
/// and not 127, and its error displays as `failed to parse metadata value`.
#[verifier::external_body]
fn metadata_value_check(value: &str) -> (r: Result<(), String>)
    ensures
        r is Ok <==> metadata_value_valid(value@),
        r is Err ==> r->Err_0@ == "failed to parse metadata value"@,
{
    match value.parse::<tonic::metadata::MetadataValue<tonic::metadata::Ascii>>() {
        Ok(_) => Ok(()),
        Err(e) => Err(e.to_string()),
    }
}

/// Whether the endpoint of a call can be set up: the URI first, then the
/// origin when there is one; the first error.
pub open spec fn endpoint_problem(uri: Seq<char>, origin: Option<Seq<char>>) -> Option<Seq<char>> {
    if !endpoint_accepted(uri) {
        Some("invalid URI"@)
    } else {
        match origin {
            Some(o) => uri_problem(o),
            None => None,
        }
    }
}

/// Checks that the endpoint of a call can be set up from its URI and
/// origin, and gives the first error.
pub fn check_endpoint(uri: &str, origin: &Option<String>) -> (r: Result<(), String>)
    ensures
        match r {
            Ok(()) => endpoint_problem(uri@, opt_string(*origin)) is None,
            Err(e) => endpoint_problem(uri@, opt_string(*origin)) == Some(e@),
        },
{
    match endpoint_check(uri) {
        Ok(()) => {},
        Err(e) => {
            return Err(e);
        },
    }
    match origin {
        Some(o) => uri_check(o.as_str()),
        None => Ok(()),
    }
}

/// The first metadata entry from `i` on that cannot be sent, and why: its
/// key is checked before its value.
pub open spec fn metadata_problem(items: Seq<(Seq<char>, Seq<char>)>, i: int) -> Option<Seq<char>>
    decreases items.len() - i,
{
    if i < 0 || i >= items.len() {
        None
    } else if !metadata_key_accepted(items[i].0) {
        Some("invalid gRPC metadata key name"@)
    } else if !metadata_value_valid(items[i].1) {
        Some("failed to parse metadata value"@)
    } else {
        metadata_problem(items, i + 1)
    }
}

/// What the path and metadata of a call give: the first error, path first,
/// or the path as it is sent.
pub open spec fn call_parts(path: Seq<char>, items: Seq<(Seq<char>, Seq<char>)>) -> Result<
    Seq<char>,
    Seq<char>,
> {
    match path_and_query(path) {
        Err(e) => Err(e),
        Ok(p) => match metadata_problem(items, 0) {
            Some(e) => Err(e),
            None => Ok(p),
        },
    }
}

/// Checks the path and the metadata of a call in the order they are used;
/// gives the path as it is sent, or the first error.
pub fn check_call_parts(path: &str, metadata: &Vec<(String, String)>) -> (r: Result<String, String>)
    ensures
        match r {
            Ok(p) => call_parts(path@, pair_views(metadata@)) == Ok::<Seq<char>, Seq<char>>(p@),
            Err(e) => call_parts(path@, pair_views(metadata@)) == Err::<Seq<char>, Seq<char>>(e@),
        },
{
    let shown = match path_check(path) {
        Ok(p) => p,
        Err(e) => {
            return Err(e);
        },
    };
    let ghost items = pair_views(metadata@);
    let mut i: usize = 0;
    while i < metadata.len()
        invariant
            i <= metadata@.len(),
            items == pair_views(metadata@),
            path_and_query(path@) == Ok::<Seq<char>, Seq<char>>(shown@),
            metadata_problem(items, 0) == metadata_problem(items, i as int),
        decreases metadata@.len() - i,
    {
        assert(items[i as int] == (metadata@[i as int].0@, metadata@[i as int].1@));
        match metadata_key_check(metadata[i].0.as_str()) {
            Ok(()) => {},
            Err(e) => {
                return Err(e);
            },
        }
        match metadata_value_check(metadata[i].1.as_str()) {
            Ok(()) => {},
            Err(e) => {
                return Err(e);
            },
        }
        i = i + 1;
    }
    Ok(shown)
}

// ---------------------------------------------------------------------------
// Laws
// ---------------------------------------------------------------------------
/// A normalized gRPC path starts with `/`, and normalizing it again changes
/// nothing.
pub proof fn law_normalized_path(path: Seq<char>)
    ensures
        starts_with(normalized_path(path), seq!['/']),
        normalized_path(normalized_path(path)) == normalized_path(path),
{
    let t = trim(path);
    crate::text::lemma_trim_shape(path);
    let n = normalized_path(path);
    if starts_with(t, seq!['/']) {
        crate::text::lemma_trim_fixed(t);
    } else {
        assert(n == seq!['/'] + t);
        assert(n[0] == '/');
        if t.len() > 0 {
            assert(n.last() == t.last());
        }
        crate::text::lemma_trim_fixed(n);
        assert(n.subrange(0, 1) =~= seq!['/']);
    }
}

/// A call is refused for streaming exactly when the method it names streams
/// requests or responses; otherwise it goes to the method that `resolve`
/// finds.
pub proof fn law_only_unary_calls(ss: Seq<ServiceView>, service_name: Seq<char>, method_name: Seq<char>)
    requires
        resolve(ss, service_name, method_name) is Ok,
    ensures
        ({
            let (s, m) = resolve(ss, service_name, method_name)->Ok_0;
            let streams = ss[s].methods[m].client_streaming || ss[s].methods[m].server_streaming;
            &&& streams ==> call_resolution(ss, service_name, method_name) == Err::<(int, int), Seq<char>>(
                "streaming RPC is recognized but not supported in this MVP"@,
            )
            &&& !streams ==> call_resolution(ss, service_name, method_name) == Ok::<(int, int), Seq<char>>((s, m))
        }),
{
}

/// The path a call goes to always starts with `/`: a given path once
/// normalized, or `/<service>/<method>`.
pub proof fn law_request_path_rooted(
    grpc_path: Option<Seq<char>>,
    service_full_name: Seq<char>,
    method_name: Seq<char>,
)
    ensures
        starts_with(request_path_of(grpc_path, service_full_name, method_name), seq!['/']),
{
    match grpc_path {
        Some(p) => {
            law_normalized_path(p);
        },
        None => {},
    }
    let m = method_path(service_full_name, method_name);
    assert(m.subrange(0, 1) =~= seq!['/']);
}

/// The URI of an endpoint: an endpoint that already starts with `http://`
/// or `https://` is used unchanged; any other gets `http://` or, with TLS,
/// `https://` in front. So every URI starts with one of the two schemes,
/// ends with the endpoint, and building the URI of a URI changes nothing.
pub proof fn law_endpoint_uri(endpoint: Seq<char>, use_tls: bool, again_tls: bool)
    ensures
        (starts_with(endpoint, "http://"@) || starts_with(endpoint, "https://"@)) ==> endpoint_uri(
            endpoint,
            use_tls,
        ) == endpoint,
        !(starts_with(endpoint, "http://"@) || starts_with(endpoint, "https://"@)) ==> endpoint_uri(
            endpoint,
            use_tls,
        ) == (if use_tls {
            "https://"@
        } else {
            "http://"@
        }) + endpoint,
        starts_with(endpoint_uri(endpoint, use_tls), "http://"@) || starts_with(
            endpoint_uri(endpoint, use_tls),
            "https://"@,
        ),
        endpoint_uri(endpoint_uri(endpoint, use_tls), again_tls) == endpoint_uri(endpoint, use_tls),
{
    reveal_strlit("http://");
    reveal_strlit("https://");
    reveal_strlit("http");
    reveal_strlit("https");
    reveal_strlit("://");
    let u = endpoint_uri(endpoint, use_tls);
    if !(starts_with(endpoint, "http://"@) || starts_with(endpoint, "https://"@)) {
        assert(scheme(use_tls) + "://"@ + endpoint =~= (if use_tls {
            "https://"@
        } else {
            "http://"@
        }) + endpoint);
        if use_tls {
            assert(u.subrange(0, 8) =~= "https://"@);
        } else {
            assert(u.subrange(0, 7) =~= "http://"@);
        }
    }
}

} // verus!
