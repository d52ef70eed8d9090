use vstd::prelude::*;
use crate::errors::{ConfigError, ConfigErrorV};
use crate::model::{
    default_kube_v, default_resource_v, domains_view, groups_view, pairs_view, resources_view,
    users_view, BackstageSettings, BackstageV, Cache, CacheV, Domain, Group, KubeSettings, KubeV,
    NatsProxy, NatsProxyV, Resource, ResourceV, ServerSettings, ServerV, Settings, SettingsV, User,
};
use crate::numbers::{int_str, parse_u64, parse_u64_s, render_i64};
use crate::tree::{
    get_v, lemma_list_view, lemma_tbl_view, list_view, table_get, tbl_view, val_view,
    ValV, Node,
};

verus! {

/// The value of field `k` of tree `t`; an explicit null counts as
/// absent.
pub open spec fn field_v(t: ValV, k: Seq<char>) -> Option<ValV> {
    match get_v(t, k) {
        Some(v) => if v is Null {
            None
        } else {
            Some(v)
        },
        None => None,
    }
}

/// String-or-numeric coercion into an unsigned 64-bit integer: a
/// non-negative integer scalar, or a decimal string.
pub open spec fn coerce_u64_v(v: ValV) -> Option<u64> {
    match v {
        ValV::Int(i) => if 0 <= i {
            Some(i as u64)
        } else {
            None
        },
        ValV::Str(s) => parse_u64_s(s),
        _ => None,
    }
}

pub open spec fn coerce_u16_v(v: ValV) -> Option<u16> {
    match coerce_u64_v(v) {
        Some(n) => if n <= u16::MAX {
            Some(n as u16)
        } else {
            None
        },
        None => None,
    }
}

pub open spec fn coerce_usize_v(v: ValV) -> Option<usize> {
    match coerce_u64_v(v) {
        Some(n) => if n <= usize::MAX {
            Some(n as usize)
        } else {
            None
        },
        None => None,
    }
}

/// The quirk-preserving coercion of the backstage name: a string is
/// taken as is, an integer scalar is rendered in decimal.
pub open spec fn coerce_str_v(v: ValV) -> Option<Seq<char>> {
    match v {
        ValV::Str(s) => Some(s),
        ValV::Int(i) => Some(int_str(i as int)),
        _ => None,
    }
}

pub open spec fn plain_str_v(v: ValV) -> Option<Seq<char>> {
    match v {
        ValV::Str(s) => Some(s),
        _ => None,
    }
}

pub open spec fn plain_bool_v(v: ValV) -> Option<bool> {
    match v {
        ValV::Bool(b) => Some(b),
        _ => None,
    }
}

/// The strings of a list of values, if every element is a string.
pub open spec fn strs_of(xs: Seq<ValV>) -> Option<Seq<Seq<char>>>
    decreases xs.len(),
{
    if xs.len() == 0 {
        Some(Seq::empty())
    } else {
        match (xs[0], strs_of(xs.drop_first())) {
            (ValV::Str(s), Some(rest)) => Some(seq![s] + rest),
            _ => None,
        }
    }
}

pub open spec fn list_strs_v(v: ValV) -> Option<Seq<Seq<char>>> {
    match v {
        ValV::List(xs) => strs_of(xs),
        _ => None,
    }
}

/// The string annotations of a table, if every value is a string.
pub open spec fn ann_of(es: Seq<(Seq<char>, ValV)>) -> Option<Seq<(Seq<char>, Seq<char>)>>
    decreases es.len(),
{
    if es.len() == 0 {
        Some(Seq::empty())
    } else {
        match (es[0].1, ann_of(es.drop_first())) {
            (ValV::Str(s), Some(rest)) => Some(seq![(es[0].0, s)] + rest),
            _ => None,
        }
    }
}

// ---------------------------------------------------------------------
// What binding each field yields.
// ---------------------------------------------------------------------
pub open spec fn req_str_v(v: ValV, path: Seq<Seq<char>>, k: Seq<char>) -> Result<
    Seq<char>,
    ConfigErrorV,
> {
    match field_v(v, k) {
        None => Err(ConfigErrorV::MissingField(path.push(k))),
        Some(x) => match plain_str_v(x) {
            Some(s) => Ok(s),
            None => Err(ConfigErrorV::TypeMismatch(path.push(k), x)),
        },
    }
}

pub open spec fn req_coerced_str_v(v: ValV, path: Seq<Seq<char>>, k: Seq<char>) -> Result<
    Seq<char>,
    ConfigErrorV,
> {
    match field_v(v, k) {
        None => Err(ConfigErrorV::MissingField(path.push(k))),
        Some(x) => match coerce_str_v(x) {
            Some(s) => Ok(s),
            None => Err(ConfigErrorV::TypeMismatch(path.push(k), x)),
        },
    }
}

pub open spec fn req_u16_v(v: ValV, path: Seq<Seq<char>>, k: Seq<char>) -> Result<
    u16,
    ConfigErrorV,
> {
    match field_v(v, k) {
        None => Err(ConfigErrorV::MissingField(path.push(k))),
        Some(x) => match coerce_u16_v(x) {
            Some(n) => Ok(n),
            None => Err(ConfigErrorV::TypeMismatch(path.push(k), x)),
        },
    }
}

pub open spec fn req_u64_v(v: ValV, path: Seq<Seq<char>>, k: Seq<char>) -> Result<
    u64,
    ConfigErrorV,
> {
    match field_v(v, k) {
        None => Err(ConfigErrorV::MissingField(path.push(k))),
        Some(x) => match coerce_u64_v(x) {
            Some(n) => Ok(n),
            None => Err(ConfigErrorV::TypeMismatch(path.push(k), x)),
        },
    }
}

pub open spec fn req_usize_v(v: ValV, path: Seq<Seq<char>>, k: Seq<char>) -> Result<
    usize,
    ConfigErrorV,
> {
    match field_v(v, k) {
        None => Err(ConfigErrorV::MissingField(path.push(k))),
        Some(x) => match coerce_usize_v(x) {
            Some(n) => Ok(n),
            None => Err(ConfigErrorV::TypeMismatch(path.push(k), x)),
        },
    }
}

pub open spec fn req_bool_v(v: ValV, path: Seq<Seq<char>>, k: Seq<char>) -> Result<
    bool,
    ConfigErrorV,
> {
    match field_v(v, k) {
        None => Err(ConfigErrorV::MissingField(path.push(k))),
        Some(x) => match plain_bool_v(x) {
            Some(b) => Ok(b),
            None => Err(ConfigErrorV::TypeMismatch(path.push(k), x)),
        },
    }
}

/// An optional string field with a documented default.
pub open spec fn opt_str_v(v: ValV, path: Seq<Seq<char>>, k: Seq<char>, dflt: Seq<char>) -> Result<
    Seq<char>,
    ConfigErrorV,
> {
    match field_v(v, k) {
        None => Ok(dflt),
        Some(x) => match plain_str_v(x) {
            Some(s) => Ok(s),
            None => Err(ConfigErrorV::TypeMismatch(path.push(k), x)),
        },
    }
}

/// An optional list-of-strings field defaulting to the empty sequence.
pub open spec fn opt_str_list_v(v: ValV, path: Seq<Seq<char>>, k: Seq<char>) -> Result<
    Seq<Seq<char>>,
    ConfigErrorV,
> {
    match field_v(v, k) {
        None => Ok(Seq::empty()),
        Some(x) => match list_strs_v(x) {
            Some(s) => Ok(s),
            None => Err(ConfigErrorV::TypeMismatch(path.push(k), x)),
        },
    }
}

/// An optional list-of-strings field whose absence is preserved.
pub open spec fn opt_opt_str_list_v(v: ValV, path: Seq<Seq<char>>, k: Seq<char>) -> Result<
    Option<Seq<Seq<char>>>,
    ConfigErrorV,
> {
    match field_v(v, k) {
        None => Ok(None),
        Some(x) => match list_strs_v(x) {
            Some(s) => Ok(Some(s)),
            None => Err(ConfigErrorV::TypeMismatch(path.push(k), x)),
        },
    }
}

pub open spec fn bind_server_v(v: ValV) -> Result<ServerV, ConfigErrorV> {
    match req_u16_v(v, seq!["server"@], "port"@) {
        Err(e) => Err(e),
        Ok(port) => match req_str_v(v, seq!["server"@], "host"@) {
            Err(e) => Err(e),
            Ok(host) => Ok(ServerV { port, host }),
        },
    }
}

pub open spec fn bind_cache_v(v: ValV) -> Result<CacheV, ConfigErrorV> {
    match req_usize_v(v, seq!["cache"@], "def_channel_size"@) {
        Err(e) => Err(e),
        Ok(def_channel_size) => match req_u64_v(v, seq!["cache"@], "poll_interval"@) {
            Err(e) => Err(e),
            Ok(poll_interval) => match req_u64_v(v, seq!["cache"@], "purge_cache_interval"@) {
                Err(e) => Err(e),
                Ok(purge_cache_interval) => Ok(
                    CacheV { def_channel_size, poll_interval, purge_cache_interval },
                ),
            },
        },
    }
}

pub open spec fn bind_nats_v(v: ValV) -> Result<NatsProxyV, ConfigErrorV> {
    match req_str_v(v, seq!["nats"@], "proxy_url"@) {
        Err(e) => Err(e),
        Ok(proxy_url) => Ok(NatsProxyV { proxy_url }),
    }
}

/// One Kubernetes resource entry: a table whose absent fields take the
/// documented defaults.
pub open spec fn bind_resource_v(v: ValV, path: Seq<Seq<char>>) -> Result<ResourceV, ConfigErrorV> {
    if !(v is Table) {
        Err(ConfigErrorV::TypeMismatch(path, v))
    } else {
        match opt_str_v(v, path, "name"@, default_resource_v().name) {
            Err(e) => Err(e),
            Ok(name) => match opt_str_list_v(v, path, "namespaces"@) {
                Err(e) => Err(e),
                Ok(namespaces) => match opt_opt_str_list_v(v, path, "api_groups"@) {
                    Err(e) => Err(e),
                    Ok(api_groups) => match opt_str_list_v(v, path, "label_selectors"@) {
                        Err(e) => Err(e),
                        Ok(label_selectors) => match opt_str_list_v(v, path, "field_selectors"@) {
                            Err(e) => Err(e),
                            Ok(field_selectors) => match opt_str_v(
                                v,
                                path,
                                "event_type"@,
                                default_resource_v().event_type,
                            ) {
                                Err(e) => Err(e),
                                Ok(event_type) => Ok(
                                    ResourceV {
                                        name,
                                        namespaces,
                                        api_groups,
                                        label_selectors,
                                        field_selectors,
                                        event_type,
                                    },
                                ),
                            },
                        },
                    },
                },
            },
        }
    }
}

pub open spec fn bind_resources_v(xs: Seq<ValV>, path: Seq<Seq<char>>) -> Result<
    Seq<ResourceV>,
    ConfigErrorV,
>
    decreases xs.len(),
{
    if xs.len() == 0 {
        Ok(Seq::empty())
    } else {
        match bind_resource_v(xs[0], path) {
            Err(e) => Err(e),
            Ok(r) => match bind_resources_v(xs.drop_first(), path) {
                Err(e) => Err(e),
                Ok(rest) => Ok(seq![r] + rest),
            },
        }
    }
}

/// The Kubernetes subtree: entirely absent means the documented
/// default; present means both fields are mandatory.
pub open spec fn bind_kube_v(t: ValV) -> Result<KubeV, ConfigErrorV> {
    match field_v(t, "kube"@) {
        None => Ok(default_kube_v()),
        Some(v) => if !(v is Table) {
            Err(ConfigErrorV::TypeMismatch(seq!["kube"@], v))
        } else {
            match req_bool_v(v, seq!["kube"@], "use_tls"@) {
                Err(e) => Err(e),
                Ok(use_tls) => match field_v(v, "resources"@) {
                    None => Err(ConfigErrorV::MissingField(seq!["kube"@, "resources"@])),
                    Some(rv) => match rv {
                        ValV::List(xs) => match bind_resources_v(xs, seq!["kube"@, "resources"@]) {
                            Err(e) => Err(e),
                            Ok(resources) => Ok(KubeV { use_tls, resources }),
                        },
                        _ => Err(ConfigErrorV::TypeMismatch(seq!["kube"@, "resources"@], rv)),
                    },
                },
            }
        },
    }
}

/// An optional table of string annotations.
pub open spec fn opt_ann_v(v: ValV, path: Seq<Seq<char>>, k: Seq<char>) -> Result<
    Option<Seq<(Seq<char>, Seq<char>)>>,
    ConfigErrorV,
> {
    match field_v(v, k) {
        None => Ok(None),
        Some(x) => match x {
            ValV::Table(es) => match ann_of(es) {
                Some(a) => Ok(Some(a)),
                None => Err(ConfigErrorV::TypeMismatch(path.push(k), x)),
            },
            _ => Err(ConfigErrorV::TypeMismatch(path.push(k), x)),
        },
    }
}

/// A mandatory list of structurally held entities.
pub open spec fn req_entity_list_v(v: ValV, path: Seq<Seq<char>>, k: Seq<char>) -> Result<
    Seq<ValV>,
    ConfigErrorV,
> {
    match field_v(v, k) {
        None => Err(ConfigErrorV::MissingField(path.push(k))),
        Some(x) => match x {
            ValV::List(xs) => Ok(xs),
            _ => Err(ConfigErrorV::TypeMismatch(path.push(k), x)),
        },
    }
}

/// An optional list of structurally held entities.
pub open spec fn opt_entity_list_v(v: ValV, path: Seq<Seq<char>>, k: Seq<char>) -> Result<
    Option<Seq<ValV>>,
    ConfigErrorV,
> {
    match field_v(v, k) {
        None => Ok(None),
        Some(x) => match x {
            ValV::List(xs) => Ok(Some(xs)),
            _ => Err(ConfigErrorV::TypeMismatch(path.push(k), x)),
        },
    }
}

pub open spec fn bind_backstage_v(v: ValV) -> Result<BackstageV, ConfigErrorV> {
    match req_coerced_str_v(v, seq!["backstage"@], "name"@) {
        Err(e) => Err(e),
        Ok(name) => match opt_ann_v(v, seq!["backstage"@], "annotations"@) {
            Err(e) => Err(e),
            Ok(annotations) => match req_entity_list_v(v, seq!["backstage"@], "groups"@) {
                Err(e) => Err(e),
                Ok(groups) => match req_entity_list_v(v, seq!["backstage"@], "users"@) {
                    Err(e) => Err(e),
                    Ok(users) => match opt_entity_list_v(v, seq!["backstage"@], "domains"@) {
                        Err(e) => Err(e),
                        Ok(domains) => Ok(
                            BackstageV { name, annotations, groups, users, domains },
                        ),
                    },
                },
            },
        },
    }
}

/// A mandatory substructure: the field must be present and a table.
pub open spec fn req_subtable_v(t: ValV, k: Seq<char>) -> Result<ValV, ConfigErrorV> {
    match field_v(t, k) {
        None => Err(ConfigErrorV::MissingField(seq![k])),
        Some(v) => if v is Table {
            Ok(v)
        } else {
            Err(ConfigErrorV::TypeMismatch(seq![k], v))
        },
    }
}

/// What binding the merged tree yields: the fully populated settings,
/// or the first error in field order.
pub open spec fn bind_v(t: ValV) -> Result<SettingsV, ConfigErrorV> {
    match req_str_v(t, Seq::empty(), "name"@) {
        Err(e) => Err(e),
        Ok(name) => match req_str_v(t, Seq::empty(), "display"@) {
            Err(e) => Err(e),
            Ok(display) => match req_str_v(t, Seq::empty(), "cluster"@) {
                Err(e) => Err(e),
                Ok(cluster) => match req_subtable_v(t, "server"@) {
                    Err(e) => Err(e),
                    Ok(sv) => match bind_server_v(sv) {
                        Err(e) => Err(e),
                        Ok(server) => match req_subtable_v(t, "backstage"@) {
                            Err(e) => Err(e),
                            Ok(bv) => match bind_backstage_v(bv) {
                                Err(e) => Err(e),
                                Ok(backstage) => match req_subtable_v(t, "nats"@) {
                                    Err(e) => Err(e),
                                    Ok(nv) => match bind_nats_v(nv) {
                                        Err(e) => Err(e),
                                        Ok(nats) => match bind_kube_v(t) {
                                            Err(e) => Err(e),
                                            Ok(kube) => match req_subtable_v(t, "cache"@) {
                                                Err(e) => Err(e),
                                                Ok(cv) => match bind_cache_v(cv) {
                                                    Err(e) => Err(e),
                                                    Ok(cache) => Ok(
                                                        SettingsV {
                                                            name,
                                                            display,
                                                            cluster,
                                                            server,
                                                            backstage,
                                                            nats,
                                                            kube,
                                                            cache,
                                                        },
                                                    ),
                                                },
                                            },
                                        },
                                    },
                                },
                            },
                        },
                    },
                },
            },
        },
    }
}

/// Binding is a function of the merged tree alone: two results of
/// binding the same tree are the same value.
pub proof fn lemma_bind_deterministic(t: ValV, r1: Result<SettingsV, ConfigErrorV>, r2: Result<
    SettingsV,
    ConfigErrorV,
>)
    requires
        r1 == bind_v(t),
        r2 == bind_v(t),
    ensures
        r1 == r2,
{
}

// ---------------------------------------------------------------------
// Executable binding.
// ---------------------------------------------------------------------
fn field_x<'a>(t: &'a Node, k: &str) -> (r: Option<&'a Node>)
    ensures
        match r {
            Some(v) => field_v(t@, k@) == Some(v@),
            None => field_v(t@, k@) is None,
        },
{
    match t {
        Node::Table(es) => {
            let key = String::from_str(k);
            match table_get(es, &key) {
                Some(v) => match v {
                    Node::Null => None,
                    _ => Some(v),
                },
                None => None,
            }
        },
        _ => None,
    }
}

fn path1(a: &str) -> (r: Vec<String>)
    ensures
        r.deep_view() == seq![a@],
{
    let mut r: Vec<String> = Vec::new();
    r.push(String::from_str(a));
    proof {
        assert(r.deep_view() =~= seq![a@]);
    }
    r
}

fn path2(a: &str, b: &str) -> (r: Vec<String>)
    ensures
        r.deep_view() == seq![a@, b@],
{
    let mut r: Vec<String> = Vec::new();
    r.push(String::from_str(a));
    r.push(String::from_str(b));
    proof {
        assert(r.deep_view() =~= seq![a@, b@]);
    }
    r
}

fn coerce_u64_x(v: &Node) -> (r: Option<u64>)
    ensures
        r == coerce_u64_v(v@),
{
    match v {
        Node::Int(i) => if *i >= 0 {
            Some(*i as u64)
        } else {
            None
        },
        Node::Str(s) => parse_u64(s.as_str()),
        _ => None,
    }
}

fn coerce_u16_x(v: &Node) -> (r: Option<u16>)
    ensures
        r == coerce_u16_v(v@),
{
    match coerce_u64_x(v) {
        Some(n) => if n <= 65535 {
            Some(n as u16)
        } else {
            None
        },
        None => None,
    }
}

fn coerce_usize_x(v: &Node) -> (r: Option<usize>)
    ensures
        r == coerce_usize_v(v@),
{
    match coerce_u64_x(v) {
        Some(n) => if n <= usize::MAX as u64 {
            Some(n as usize)
        } else {
            None
        },
        None => None,
    }
}

fn coerce_string_x(v: &Node) -> (r: Option<String>)
    ensures
        (match r {
            Some(s) => coerce_str_v(v@) == Some(s@),
            None => coerce_str_v(v@) is None,
        }),
{
    match v {
        Node::Str(s) => Some(s.clone()),
        Node::Int(i) => Some(render_i64(*i)),
        _ => None,
    }
}

fn plain_string_x(v: &Node) -> (r: Option<String>)
    ensures
        (match r {
            Some(s) => plain_str_v(v@) == Some(s@),
            None => plain_str_v(v@) is None,
        }),
{
    match v {
        Node::Str(s) => Some(s.clone()),
        _ => None,
    }
}

fn plain_bool_x(v: &Node) -> (r: Option<bool>)
    ensures
        r == plain_bool_v(v@),
{
    match v {
        Node::Bool(b) => Some(*b),
        _ => None,
    }
}

fn string_list_x(v: &Node) -> (r: Option<Vec<String>>)
    ensures
        (match r {
            Some(out) => list_strs_v(v@) == Some(out.deep_view()),
            None => list_strs_v(v@) is None,
        }),
{
    match v {
        Node::List(xs) => {
            let ghost ws = list_view(xs@);
            proof {
                lemma_list_view(xs@);
                assert(ws.skip(0) =~= ws);
            }
            let mut out: Vec<String> = Vec::new();
            let mut i: usize = 0;
            proof {
                assert(out.deep_view() =~= Seq::<Seq<char>>::empty());
            }
            while i < xs.len()
                invariant
                    i <= xs.len(),
                    val_view(*v) == ValV::List(ws),
                    ws == list_view(xs@),
                    ws.len() == xs@.len(),
                    forall|j: int|
                        #![trigger xs@[j]]
                        0 <= j < xs@.len() ==> ws[j] == val_view(xs@[j]),
                    strs_of(ws) is Some <==> strs_of(ws.skip(i as int)) is Some,
                    strs_of(ws) is Some ==> strs_of(ws) == Some(
                        out.deep_view() + strs_of(ws.skip(i as int))->Some_0,
                    ),
                decreases xs.len() - i,
            {
                proof {
                    assert(ws.skip(i as int)[0] == ws[i as int]);
                    assert(ws.skip(i as int).drop_first() =~= ws.skip(i + 1));
                }
                match &xs[i] {
                    Node::Str(s) => {
                        let ghost old_dv = out.deep_view();
                        out.push(s.clone());
                        proof {
                            assert(out.deep_view() =~= old_dv.push(s@));
                            if strs_of(ws.skip(i + 1)) is Some {
                                let rest = strs_of(ws.skip(i + 1))->Some_0;
                                assert(strs_of(ws.skip(i as int)) == Some(seq![s@] + rest));
                                assert(old_dv + (seq![s@] + rest) =~= old_dv.push(s@) + rest);
                            }
                        }
                    },
                    _ => {
                        proof {
                            assert(strs_of(ws.skip(i as int)) is None);
                        }
                        return None;
                    },
                }
                i += 1;
            }
            proof {
                assert(ws.skip(xs@.len() as int).len() == 0);
                assert(strs_of(ws) == Some(out.deep_view() + Seq::<Seq<char>>::empty()));
                assert(out.deep_view() + Seq::<Seq<char>>::empty() =~= out.deep_view());
            }
            Some(out)
        },
        _ => None,
    }
}

fn ann_table_x(es: &Vec<(String, Node)>) -> (r: Option<Vec<(String, String)>>)
    ensures
        (match r {
            Some(out) => ann_of(tbl_view(es@)) == Some(pairs_view(out@)),
            None => ann_of(tbl_view(es@)) is None,
        }),
{
    let ghost ws = tbl_view(es@);
    proof {
        lemma_tbl_view(es@);
        assert(ws.skip(0) =~= ws);
    }
    let mut out: Vec<(String, String)> = Vec::new();
    let mut i: usize = 0;
    proof {
        assert(pairs_view(out@) =~= Seq::<(Seq<char>, Seq<char>)>::empty());
    }
    while i < es.len()
        invariant
            i <= es.len(),
            ws == tbl_view(es@),
            ws.len() == es@.len(),
            forall|j: int|
                #![trigger es@[j]]
                0 <= j < es@.len() ==> ws[j] == (es@[j].0@, val_view(es@[j].1)),
            ann_of(ws) is Some <==> ann_of(ws.skip(i as int)) is Some,
            ann_of(ws) is Some ==> ann_of(ws) == Some(
                pairs_view(out@) + ann_of(ws.skip(i as int))->Some_0,
            ),
        decreases es.len() - i,
    {
        proof {
            assert(ws.skip(i as int)[0] == ws[i as int]);
            assert(ws.skip(i as int).drop_first() =~= ws.skip(i + 1));
        }
        match &es[i].1 {
            Node::Str(s) => {
                let ghost old_pv = pairs_view(out@);
                let key = es[i].0.clone();
                out.push((key, s.clone()));
                proof {
                    assert(pairs_view(out@) =~= old_pv.push((es@[i as int].0@, s@)));
                    if ann_of(ws.skip(i + 1)) is Some {
                        let rest = ann_of(ws.skip(i + 1))->Some_0;
                        assert(ann_of(ws.skip(i as int)) == Some(
                            seq![(es@[i as int].0@, s@)] + rest,
                        ));
                        assert(old_pv + (seq![(es@[i as int].0@, s@)] + rest) =~= old_pv.push(
                            (es@[i as int].0@, s@),
                        ) + rest);
                    }
                }
            },
            _ => {
                proof {
                    assert(ann_of(ws.skip(i as int)) is None);
                }
                return None;
            },
        }
        i += 1;
    }
    proof {
        assert(ws.skip(es@.len() as int).len() == 0);
        assert(ann_of(ws) == Some(pairs_view(out@) + Seq::<(Seq<char>, Seq<char>)>::empty()));
        assert(pairs_view(out@) + Seq::<(Seq<char>, Seq<char>)>::empty() =~= pairs_view(out@));
    }
    Some(out)
}

fn groups_x(xs: &Vec<Node>) -> (r: Vec<Group>)
    ensures
        groups_view(r@) == list_view(xs@),
{
    let ghost ws = list_view(xs@);
    proof {
        lemma_list_view(xs@);
    }
    let mut out: Vec<Group> = Vec::new();
    let mut i: usize = 0;
    while i < xs.len()
        invariant
            i <= xs.len(),
            ws == list_view(xs@),
            ws.len() == xs@.len(),
            forall|j: int|
                #![trigger xs@[j]]
                0 <= j < xs@.len() ==> ws[j] == val_view(xs@[j]),
            groups_view(out@) == ws.take(i as int),
        decreases xs.len() - i,
    {
        let ghost old_gv = groups_view(out@);
        out.push(Group { raw: xs[i].clone() });
        proof {
            assert(groups_view(out@) =~= old_gv.push(ws[i as int]));
            assert(ws.take(i + 1) =~= ws.take(i as int).push(ws[i as int]));
        }
        i += 1;
    }
    proof {
        assert(ws.take(xs@.len() as int) =~= ws);
    }
    out
}

fn users_x(xs: &Vec<Node>) -> (r: Vec<User>)
    ensures
        users_view(r@) == list_view(xs@),
{
    let ghost ws = list_view(xs@);
    proof {
        lemma_list_view(xs@);
    }
    let mut out: Vec<User> = Vec::new();
    let mut i: usize = 0;
    while i < xs.len()
        invariant
            i <= xs.len(),
            ws == list_view(xs@),
            ws.len() == xs@.len(),
            forall|j: int|
                #![trigger xs@[j]]
                0 <= j < xs@.len() ==> ws[j] == val_view(xs@[j]),
            users_view(out@) == ws.take(i as int),
        decreases xs.len() - i,
    {
        let ghost old_gv = users_view(out@);
        out.push(User { raw: xs[i].clone() });
        proof {
            assert(users_view(out@) =~= old_gv.push(ws[i as int]));
            assert(ws.take(i + 1) =~= ws.take(i as int).push(ws[i as int]));
        }
        i += 1;
    }
    proof {
        assert(ws.take(xs@.len() as int) =~= ws);
    }
    out
}

fn domains_x(xs: &Vec<Node>) -> (r: Vec<Domain>)
    ensures
        domains_view(r@) == list_view(xs@),
{
    let ghost ws = list_view(xs@);
    proof {
        lemma_list_view(xs@);
    }
    let mut out: Vec<Domain> = Vec::new();
    let mut i: usize = 0;
    while i < xs.len()
        invariant
            i <= xs.len(),
            ws == list_view(xs@),
            ws.len() == xs@.len(),
            forall|j: int|
                #![trigger xs@[j]]
                0 <= j < xs@.len() ==> ws[j] == val_view(xs@[j]),
            domains_view(out@) == ws.take(i as int),
        decreases xs.len() - i,
    {
        let ghost old_gv = domains_view(out@);
        out.push(Domain { raw: xs[i].clone() });
        proof {
            assert(domains_view(out@) =~= old_gv.push(ws[i as int]));
            assert(ws.take(i + 1) =~= ws.take(i as int).push(ws[i as int]));
        }
        i += 1;
    }
    proof {
        assert(ws.take(xs@.len() as int) =~= ws);
    }
    out
}

fn path3(a: &str, b: &str, c: &str) -> (r: Vec<String>)
    ensures
        r.deep_view() == seq![a@, b@, c@],
{
    let mut r: Vec<String> = Vec::new();
    r.push(String::from_str(a));
    r.push(String::from_str(b));
    r.push(String::from_str(c));
    proof {
        assert(r.deep_view() =~= seq![a@, b@, c@]);
    }
    r
}

fn bind_server_x(v: &Node) -> (r: Result<ServerSettings, ConfigError>)
    ensures
        (match r {
            Ok(x) => bind_server_v(v@) == Ok::<ServerV, ConfigErrorV>(x@),
            Err(e) => bind_server_v(v@) == Err::<ServerV, ConfigErrorV>(e@),
        }),
{
    proof {
        assert(seq!["server"@].push("port"@) =~= seq!["server"@, "port"@]);
        assert(seq!["server"@].push("host"@) =~= seq!["server"@, "host"@]);
    }
    let port = match field_x(v, "port") {
        None => {
            return Err(ConfigError::MissingField(path2("server", "port")));
        },
        Some(x) => match coerce_u16_x(x) {
            None => {
                return Err(ConfigError::TypeMismatch(path2("server", "port"), x.clone()));
            },
            Some(p) => p,
        },
    };
    let host = match field_x(v, "host") {
        None => {
            return Err(ConfigError::MissingField(path2("server", "host")));
        },
        Some(x) => match plain_string_x(x) {
            None => {
                return Err(ConfigError::TypeMismatch(path2("server", "host"), x.clone()));
            },
            Some(h) => h,
        },
    };
    Ok(ServerSettings { port, host })
}

fn bind_cache_x(v: &Node) -> (r: Result<Cache, ConfigError>)
    ensures
        (match r {
            Ok(x) => bind_cache_v(v@) == Ok::<CacheV, ConfigErrorV>(x@),
            Err(e) => bind_cache_v(v@) == Err::<CacheV, ConfigErrorV>(e@),
        }),
{
    proof {
        assert(seq!["cache"@].push("def_channel_size"@) =~= seq!["cache"@, "def_channel_size"@]);
        assert(seq!["cache"@].push("poll_interval"@) =~= seq!["cache"@, "poll_interval"@]);
        assert(seq!["cache"@].push("purge_cache_interval"@) =~= seq![
            "cache"@,
            "purge_cache_interval"@,
        ]);
    }
    let def_channel_size = match field_x(v, "def_channel_size") {
        None => {
            return Err(ConfigError::MissingField(path2("cache", "def_channel_size")));
        },
        Some(x) => match coerce_usize_x(x) {
            None => {
                return Err(
                    ConfigError::TypeMismatch(path2("cache", "def_channel_size"), x.clone()),
                );
            },
            Some(n) => n,
        },
    };
    let poll_interval = match field_x(v, "poll_interval") {
        None => {
            return Err(ConfigError::MissingField(path2("cache", "poll_interval")));
        },
        Some(x) => match coerce_u64_x(x) {
            None => {
                return Err(ConfigError::TypeMismatch(path2("cache", "poll_interval"), x.clone()));
            },
            Some(n) => n,
        },
    };
    let purge_cache_interval = match field_x(v, "purge_cache_interval") {
        None => {
            return Err(ConfigError::MissingField(path2("cache", "purge_cache_interval")));
        },
        Some(x) => match coerce_u64_x(x) {
            None => {
                return Err(
                    ConfigError::TypeMismatch(path2("cache", "purge_cache_interval"), x.clone()),
                );
            },
            Some(n) => n,
        },
    };
    Ok(Cache { def_channel_size, poll_interval, purge_cache_interval })
}

fn bind_nats_x(v: &Node) -> (r: Result<NatsProxy, ConfigError>)
    ensures
        (match r {
            Ok(x) => bind_nats_v(v@) == Ok::<NatsProxyV, ConfigErrorV>(x@),
            Err(e) => bind_nats_v(v@) == Err::<NatsProxyV, ConfigErrorV>(e@),
        }),
{
    proof {
        assert(seq!["nats"@].push("proxy_url"@) =~= seq!["nats"@, "proxy_url"@]);
    }
    let proxy_url = match field_x(v, "proxy_url") {
        None => {
            return Err(ConfigError::MissingField(path2("nats", "proxy_url")));
        },
        Some(x) => match plain_string_x(x) {
            None => {
                return Err(ConfigError::TypeMismatch(path2("nats", "proxy_url"), x.clone()));
            },
            Some(u) => u,
        },
    };
    Ok(NatsProxy { proxy_url })
}

fn bind_resource_x(v: &Node) -> (r: Result<Resource, ConfigError>)
    ensures
        (match r {
            Ok(x) => bind_resource_v(v@, seq!["kube"@, "resources"@]) == Ok::<
                ResourceV,
                ConfigErrorV,
            >(x@),
            Err(e) => bind_resource_v(v@, seq!["kube"@, "resources"@]) == Err::<
                ResourceV,
                ConfigErrorV,
            >(e@),
        }),
{
    proof {
        assert(seq!["kube"@, "resources"@].push("name"@) =~= seq!["kube"@, "resources"@, "name"@]);
        assert(seq!["kube"@, "resources"@].push("namespaces"@) =~= seq![
            "kube"@,
            "resources"@,
            "namespaces"@,
        ]);
        assert(seq!["kube"@, "resources"@].push("api_groups"@) =~= seq![
            "kube"@,
            "resources"@,
            "api_groups"@,
        ]);
        assert(seq!["kube"@, "resources"@].push("label_selectors"@) =~= seq![
            "kube"@,
            "resources"@,
            "label_selectors"@,
        ]);
        assert(seq!["kube"@, "resources"@].push("field_selectors"@) =~= seq![
            "kube"@,
            "resources"@,
            "field_selectors"@,
        ]);
        assert(seq!["kube"@, "resources"@].push("event_type"@) =~= seq![
            "kube"@,
            "resources"@,
            "event_type"@,
        ]);
    }
    match v {
        Node::Table(_) => {},
        _ => {
            return Err(ConfigError::TypeMismatch(path2("kube", "resources"), v.clone()));
        },
    }
    let name = match field_x(v, "name") {
        None => String::from_str("events"),
        Some(x) => match plain_string_x(x) {
            None => {
                return Err(
                    ConfigError::TypeMismatch(path3("kube", "resources", "name"), x.clone()),
                );
            },
            Some(s) => s,
        },
    };
    let namespaces = match field_x(v, "namespaces") {
        None => {
            let e: Vec<String> = Vec::new();
            proof {
                assert(e.deep_view() =~= Seq::<Seq<char>>::empty());
            }
            e
        },
        Some(x) => match string_list_x(x) {
            None => {
                return Err(
                    ConfigError::TypeMismatch(path3("kube", "resources", "namespaces"), x.clone()),
                );
            },
            Some(l) => l,
        },
    };
    let api_groups = match field_x(v, "api_groups") {
        None => None,
        Some(x) => match string_list_x(x) {
            None => {
                return Err(
                    ConfigError::TypeMismatch(path3("kube", "resources", "api_groups"), x.clone()),
                );
            },
            Some(l) => Some(l),
        },
    };
    let label_selectors = match field_x(v, "label_selectors") {
        None => {
            let e: Vec<String> = Vec::new();
            proof {
                assert(e.deep_view() =~= Seq::<Seq<char>>::empty());
            }
            e
        },
        Some(x) => match string_list_x(x) {
            None => {
                return Err(
                    ConfigError::TypeMismatch(
                        path3("kube", "resources", "label_selectors"),
                        x.clone(),
                    ),
                );
            },
            Some(l) => l,
        },
    };
    let field_selectors = match field_x(v, "field_selectors") {
        None => {
            let e: Vec<String> = Vec::new();
            proof {
                assert(e.deep_view() =~= Seq::<Seq<char>>::empty());
            }
            e
        },
        Some(x) => match string_list_x(x) {
            None => {
                return Err(
                    ConfigError::TypeMismatch(
                        path3("kube", "resources", "field_selectors"),
                        x.clone(),
                    ),
                );
            },
            Some(l) => l,
        },
    };
    let event_type = match field_x(v, "event_type") {
        None => String::from_str("axyom.k8s.event.v1"),
        Some(x) => match plain_string_x(x) {
            None => {
                return Err(
                    ConfigError::TypeMismatch(path3("kube", "resources", "event_type"), x.clone()),
                );
            },
            Some(s) => s,
        },
    };
    Ok(Resource { name, namespaces, api_groups, label_selectors, field_selectors, event_type })
}

fn bind_resources_x(xs: &Vec<Node>) -> (r: Result<Vec<Resource>, ConfigError>)
    ensures
        (match r {
            Ok(out) => bind_resources_v(list_view(xs@), seq!["kube"@, "resources"@]) == Ok::<
                Seq<ResourceV>,
                ConfigErrorV,
            >(resources_view(out@)),
            Err(e) => bind_resources_v(list_view(xs@), seq!["kube"@, "resources"@]) == Err::<
                Seq<ResourceV>,
                ConfigErrorV,
            >(e@),
        }),
{
    let ghost path = seq!["kube"@, "resources"@];
    let ghost ws = list_view(xs@);
    proof {
        lemma_list_view(xs@);
        assert(ws.skip(0) =~= ws);
    }
    let mut out: Vec<Resource> = Vec::new();
    let mut i: usize = 0;
    proof {
        assert(resources_view(out@) =~= Seq::<ResourceV>::empty());
        assert(resources_view(out@) + bind_resources_v(ws, path)->Ok_0 =~= bind_resources_v(
            ws,
            path,
        )->Ok_0);
    }
    while i < xs.len()
        invariant
            i <= xs.len(),
            path == seq!["kube"@, "resources"@],
            ws == list_view(xs@),
            ws.len() == xs@.len(),
            forall|j: int|
                #![trigger xs@[j]]
                0 <= j < xs@.len() ==> ws[j] == val_view(xs@[j]),
            bind_resources_v(ws, path) == (match bind_resources_v(ws.skip(i as int), path) {
                Ok(rest) => Ok::<Seq<ResourceV>, ConfigErrorV>(resources_view(out@) + rest),
                Err(e) => Err::<Seq<ResourceV>, ConfigErrorV>(e),
            }),
        decreases xs.len() - i,
    {
        proof {
            assert(ws.skip(i as int)[0] == ws[i as int]);
            assert(ws.skip(i as int).drop_first() =~= ws.skip(i + 1));
        }
        match bind_resource_x(&xs[i]) {
            Err(e) => {
                return Err(e);
            },
            Ok(res) => {
                let ghost old_rv = resources_view(out@);
                out.push(res);
                proof {
                    assert(resources_view(out@) =~= old_rv.push(res@));
                    if bind_resources_v(ws.skip(i + 1), path) is Ok {
                        let rest = bind_resources_v(ws.skip(i + 1), path)->Ok_0;
                        assert(bind_resources_v(ws.skip(i as int), path) == Ok::<
                            Seq<ResourceV>,
                            ConfigErrorV,
                        >(seq![res@] + rest));
                        assert(old_rv + (seq![res@] + rest) =~= old_rv.push(res@) + rest);
                    }
                }
            },
        }
        i += 1;
    }
    proof {
        assert(ws.skip(xs@.len() as int).len() == 0);
        assert(resources_view(out@) + Seq::<ResourceV>::empty() =~= resources_view(out@));
    }
    Ok(out)
}

fn bind_kube_x(t: &Node) -> (r: Result<KubeSettings, ConfigError>)
    ensures
        (match r {
            Ok(x) => bind_kube_v(t@) == Ok::<KubeV, ConfigErrorV>(x@),
            Err(e) => bind_kube_v(t@) == Err::<KubeV, ConfigErrorV>(e@),
        }),
{
    proof {
        assert(seq!["kube"@].push("use_tls"@) =~= seq!["kube"@, "use_tls"@]);
    }
    match field_x(t, "kube") {
        None => Ok(KubeSettings::default()),
        Some(v) => {
            match v {
                Node::Table(_) => {},
                _ => {
                    return Err(ConfigError::TypeMismatch(path1("kube"), v.clone()));
                },
            }
            let use_tls = match field_x(v, "use_tls") {
                None => {
                    return Err(ConfigError::MissingField(path2("kube", "use_tls")));
                },
                Some(x) => match plain_bool_x(x) {
                    None => {
                        return Err(ConfigError::TypeMismatch(path2("kube", "use_tls"), x.clone()));
                    },
                    Some(b) => b,
                },
            };
            match field_x(v, "resources") {
                None => Err(ConfigError::MissingField(path2("kube", "resources"))),
                Some(rv) => match rv {
                    Node::List(xs) => match bind_resources_x(xs) {
                        Err(e) => Err(e),
                        Ok(resources) => Ok(KubeSettings { use_tls, resources }),
                    },
                    _ => Err(ConfigError::TypeMismatch(path2("kube", "resources"), rv.clone())),
                },
            }
        },
    }
}

fn bind_backstage_x(v: &Node) -> (r: Result<BackstageSettings, ConfigError>)
    ensures
        (match r {
            Ok(x) => bind_backstage_v(v@) == Ok::<BackstageV, ConfigErrorV>(x@),
            Err(e) => bind_backstage_v(v@) == Err::<BackstageV, ConfigErrorV>(e@),
        }),
{
    proof {
        assert(seq!["backstage"@].push("name"@) =~= seq!["backstage"@, "name"@]);
        assert(seq!["backstage"@].push("annotations"@) =~= seq!["backstage"@, "annotations"@]);
        assert(seq!["backstage"@].push("groups"@) =~= seq!["backstage"@, "groups"@]);
        assert(seq!["backstage"@].push("users"@) =~= seq!["backstage"@, "users"@]);
        assert(seq!["backstage"@].push("domains"@) =~= seq!["backstage"@, "domains"@]);
    }
    let name = match field_x(v, "name") {
        None => {
            return Err(ConfigError::MissingField(path2("backstage", "name")));
        },
        Some(x) => match coerce_string_x(x) {
            None => {
                return Err(ConfigError::TypeMismatch(path2("backstage", "name"), x.clone()));
            },
            Some(s) => s,
        },
    };
    let annotations = match field_x(v, "annotations") {
        None => None,
        Some(x) => match x {
            Node::Table(es) => match ann_table_x(es) {
                None => {
                    return Err(
                        ConfigError::TypeMismatch(path2("backstage", "annotations"), x.clone()),
                    );
                },
                Some(a) => Some(a),
            },
            _ => {
                return Err(
                    ConfigError::TypeMismatch(path2("backstage", "annotations"), x.clone()),
                );
            },
        },
    };
    let groups = match field_x(v, "groups") {
        None => {
            return Err(ConfigError::MissingField(path2("backstage", "groups")));
        },
        Some(x) => match x {
            Node::List(xs) => groups_x(xs),
            _ => {
                return Err(ConfigError::TypeMismatch(path2("backstage", "groups"), x.clone()));
            },
        },
    };
    let users = match field_x(v, "users") {
        None => {
            return Err(ConfigError::MissingField(path2("backstage", "users")));
        },
        Some(x) => match x {
            Node::List(xs) => users_x(xs),
            _ => {
                return Err(ConfigError::TypeMismatch(path2("backstage", "users"), x.clone()));
            },
        },
    };
    let domains = match field_x(v, "domains") {
        None => None,
        Some(x) => match x {
            Node::List(xs) => Some(domains_x(xs)),
            _ => {
                return Err(ConfigError::TypeMismatch(path2("backstage", "domains"), x.clone()));
            },
        },
    };
    Ok(BackstageSettings { name, annotations, groups, users, domains })
}

/// Bind the merged tree into the typed configuration model, exactly as
/// [`bind_v`] describes: coercions applied, defaults filled, the first
/// missing mandatory field or type mismatch reported.
pub fn bind(t: &Node) -> (r: Result<Settings, ConfigError>)
    ensures
        (match r {
            Ok(s) => bind_v(t@) == Ok::<SettingsV, ConfigErrorV>(s@),
            Err(e) => bind_v(t@) == Err::<SettingsV, ConfigErrorV>(e@),
        }),
{
    proof {
        assert(Seq::<Seq<char>>::empty().push("name"@) =~= seq!["name"@]);
        assert(Seq::<Seq<char>>::empty().push("display"@) =~= seq!["display"@]);
        assert(Seq::<Seq<char>>::empty().push("cluster"@) =~= seq!["cluster"@]);
    }
    let name = match field_x(t, "name") {
        None => {
            return Err(ConfigError::MissingField(path1("name")));
        },
        Some(x) => match plain_string_x(x) {
            None => {
                return Err(ConfigError::TypeMismatch(path1("name"), x.clone()));
            },
            Some(s) => s,
        },
    };
    let display = match field_x(t, "display") {
        None => {
            return Err(ConfigError::MissingField(path1("display")));
        },
        Some(x) => match plain_string_x(x) {
            None => {
                return Err(ConfigError::TypeMismatch(path1("display"), x.clone()));
            },
            Some(s) => s,
        },
    };
    let cluster = match field_x(t, "cluster") {
        None => {
            return Err(ConfigError::MissingField(path1("cluster")));
        },
        Some(x) => match plain_string_x(x) {
            None => {
                return Err(ConfigError::TypeMismatch(path1("cluster"), x.clone()));
            },
            Some(s) => s,
        },
    };
    let server = match field_x(t, "server") {
        None => {
            return Err(ConfigError::MissingField(path1("server")));
        },
        Some(x) => {
            match x {
                Node::Table(_) => {},
                _ => {
                    return Err(ConfigError::TypeMismatch(path1("server"), x.clone()));
                },
            }
            match bind_server_x(x) {
                Err(e) => {
                    return Err(e);
                },
                Ok(s) => s,
            }
        },
    };
    let backstage = match field_x(t, "backstage") {
        None => {
            return Err(ConfigError::MissingField(path1("backstage")));
        },
        Some(x) => {
            match x {
                Node::Table(_) => {},
                _ => {
                    return Err(ConfigError::TypeMismatch(path1("backstage"), x.clone()));
                },
            }
            match bind_backstage_x(x) {
                Err(e) => {
                    return Err(e);
                },
                Ok(s) => s,
            }
        },
    };
    let nats = match field_x(t, "nats") {
        None => {
            return Err(ConfigError::MissingField(path1("nats")));
        },
        Some(x) => {
            match x {
                Node::Table(_) => {},
                _ => {
                    return Err(ConfigError::TypeMismatch(path1("nats"), x.clone()));
                },
            }
            match bind_nats_x(x) {
                Err(e) => {
                    return Err(e);
                },
                Ok(s) => s,
            }
        },
    };
    let kube = match bind_kube_x(t) {
        Err(e) => {
            return Err(e);
        },
        Ok(s) => s,
    };
    let cache = match field_x(t, "cache") {
        None => {
            return Err(ConfigError::MissingField(path1("cache")));
        },
        Some(x) => {
            match x {
                Node::Table(_) => {},
                _ => {
                    return Err(ConfigError::TypeMismatch(path1("cache"), x.clone()));
                },
            }
            match bind_cache_x(x) {
                Err(e) => {
                    return Err(e);
                },
                Ok(s) => s,
            }
        },
    };
    Ok(Settings { name, display, cluster, server, backstage, nats, kube, cache })
}

} // verus!
