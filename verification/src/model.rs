use vstd::prelude::*;
use crate::tree::{val_view, ValV, Node};

verus! {

/// Network settings of the service's own listener.
#[derive(Debug, Clone)]
pub struct ServerSettings {
    pub port: u16,
    pub host: String,
}

pub ghost struct ServerV {
    pub port: u16,
    pub host: Seq<char>,
}

impl View for ServerSettings {
    type V = ServerV;

    open spec fn view(&self) -> ServerV {
        ServerV { port: self.port, host: self.host@ }
    }
}

/// Cache tuning knobs; every field may arrive as a number or as a
/// numeric string.
#[derive(Debug, Clone)]
pub struct Cache {
    pub def_channel_size: usize,
    pub poll_interval: u64,
    pub purge_cache_interval: u64,
}

pub ghost struct CacheV {
    pub def_channel_size: usize,
    pub poll_interval: u64,
    pub purge_cache_interval: u64,
}

impl View for Cache {
    type V = CacheV;

    open spec fn view(&self) -> CacheV {
        CacheV {
            def_channel_size: self.def_channel_size,
            poll_interval: self.poll_interval,
            purge_cache_interval: self.purge_cache_interval,
        }
    }
}

/// The messaging-proxy endpoint; opaque to this crate beyond being a
/// string.
#[derive(Debug, Clone)]
pub struct NatsProxy {
    pub proxy_url: String,
}

pub ghost struct NatsProxyV {
    pub proxy_url: Seq<char>,
}

impl View for NatsProxy {
    type V = NatsProxyV;

    open spec fn view(&self) -> NatsProxyV {
        NatsProxyV { proxy_url: self.proxy_url@ }
    }
}

/// A backstage group entity; its payload is deserialized structurally
/// and never interpreted here.
#[derive(Debug, Clone)]
pub struct Group {
    pub raw: Node,
}

impl View for Group {
    type V = ValV;

    open spec fn view(&self) -> ValV {
        val_view(self.raw)
    }
}

/// A backstage user entity; structural payload only.
#[derive(Debug, Clone)]
pub struct User {
    pub raw: Node,
}

impl View for User {
    type V = ValV;

    open spec fn view(&self) -> ValV {
        val_view(self.raw)
    }
}

/// A backstage domain entity; structural payload only.
#[derive(Debug, Clone)]
pub struct Domain {
    pub raw: Node,
}

impl View for Domain {
    type V = ValV;

    open spec fn view(&self) -> ValV {
        val_view(self.raw)
    }
}

/// The view of a list of annotation pairs.
pub open spec fn pairs_view(s: Seq<(String, String)>) -> Seq<(Seq<char>, Seq<char>)> {
    s.map_values(|p: (String, String)| (p.0@, p.1@))
}

/// The view of a list of groups.
pub open spec fn groups_view(s: Seq<Group>) -> Seq<ValV> {
    s.map_values(|g: Group| g@)
}

/// The view of a list of users.
pub open spec fn users_view(s: Seq<User>) -> Seq<ValV> {
    s.map_values(|u: User| u@)
}

/// The view of a list of domains.
pub open spec fn domains_view(s: Seq<Domain>) -> Seq<ValV> {
    s.map_values(|d: Domain| d@)
}

/// Backstage catalogue settings.
#[derive(Debug, Clone)]
pub struct BackstageSettings {
    pub name: String,
    pub annotations: Option<Vec<(String, String)>>,
    pub groups: Vec<Group>,
    pub users: Vec<User>,
    pub domains: Option<Vec<Domain>>,
}

pub ghost struct BackstageV {
    pub name: Seq<char>,
    pub annotations: Option<Seq<(Seq<char>, Seq<char>)>>,
    pub groups: Seq<ValV>,
    pub users: Seq<ValV>,
    pub domains: Option<Seq<ValV>>,
}

impl View for BackstageSettings {
    type V = BackstageV;

    open spec fn view(&self) -> BackstageV {
        BackstageV {
            name: self.name@,
            annotations: match self.annotations {
                Some(v) => Some(pairs_view(v@)),
                None => None,
            },
            groups: groups_view(self.groups@),
            users: users_view(self.users@),
            domains: match self.domains {
                Some(v) => Some(domains_view(v@)),
                None => None,
            },
        }
    }
}

/// The view of a list of resources.
pub open spec fn resources_view(s: Seq<Resource>) -> Seq<ResourceV> {
    s.map_values(|r: Resource| r@)
}

/// One Kubernetes resource-watch descriptor.
#[derive(Debug, Clone)]
pub struct Resource {
    pub name: String,
    pub namespaces: Vec<String>,
    pub api_groups: Option<Vec<String>>,
    pub label_selectors: Vec<String>,
    pub field_selectors: Vec<String>,
    pub event_type: String,
}

pub ghost struct ResourceV {
    pub name: Seq<char>,
    pub namespaces: Seq<Seq<char>>,
    pub api_groups: Option<Seq<Seq<char>>>,
    pub label_selectors: Seq<Seq<char>>,
    pub field_selectors: Seq<Seq<char>>,
    pub event_type: Seq<char>,
}

impl View for Resource {
    type V = ResourceV;

    open spec fn view(&self) -> ResourceV {
        ResourceV {
            name: self.name@,
            namespaces: self.namespaces.deep_view(),
            api_groups: match self.api_groups {
                Some(v) => Some(v.deep_view()),
                None => None,
            },
            label_selectors: self.label_selectors.deep_view(),
            field_selectors: self.field_selectors.deep_view(),
            event_type: self.event_type@,
        }
    }
}

/// The documented default of a [`Resource`] constructed without
/// overrides.
pub open spec fn default_resource_v() -> ResourceV {
    ResourceV {
        name: "events"@,
        namespaces: Seq::empty(),
        api_groups: None,
        label_selectors: Seq::empty(),
        field_selectors: Seq::empty(),
        event_type: "axyom.k8s.event.v1"@,
    }
}

impl Default for Resource {
    fn default() -> (d: Resource)
        ensures
            d@ == default_resource_v(),
    {
        let d = Resource {
            name: String::from_str("events"),
            namespaces: Vec::new(),
            api_groups: None,
            label_selectors: Vec::new(),
            field_selectors: Vec::new(),
            event_type: String::from_str("axyom.k8s.event.v1"),
        };
        proof {
            assert(d@.namespaces =~= Seq::<Seq<char>>::empty());
            assert(d@.label_selectors =~= Seq::<Seq<char>>::empty());
            assert(d@.field_selectors =~= Seq::<Seq<char>>::empty());
        }
        d
    }
}

/// Kubernetes watch settings.
#[derive(Debug, Clone)]
pub struct KubeSettings {
    pub use_tls: bool,
    pub resources: Vec<Resource>,
}

pub ghost struct KubeV {
    pub use_tls: bool,
    pub resources: Seq<ResourceV>,
}

impl View for KubeSettings {
    type V = KubeV;

    open spec fn view(&self) -> KubeV {
        KubeV { use_tls: self.use_tls, resources: resources_view(self.resources@) }
    }
}

/// The documented default of [`KubeSettings`] when the subtree is
/// absent: TLS disabled, no resources.
pub open spec fn default_kube_v() -> KubeV {
    KubeV { use_tls: false, resources: Seq::empty() }
}

impl Default for KubeSettings {
    fn default() -> (d: KubeSettings)
        ensures
            d@ == default_kube_v(),
    {
        let d = KubeSettings { use_tls: false, resources: Vec::new() };
        proof {
            assert(d@.resources =~= Seq::<ResourceV>::empty());
        }
        d
    }
}

/// The root of the configuration model.
#[derive(Debug, Clone)]
pub struct Settings {
    pub name: String,
    pub display: String,
    pub cluster: String,
    pub server: ServerSettings,
    pub backstage: BackstageSettings,
    pub nats: NatsProxy,
    pub kube: KubeSettings,
    pub cache: Cache,
}

pub ghost struct SettingsV {
    pub name: Seq<char>,
    pub display: Seq<char>,
    pub cluster: Seq<char>,
    pub server: ServerV,
    pub backstage: BackstageV,
    pub nats: NatsProxyV,
    pub kube: KubeV,
    pub cache: CacheV,
}

impl View for Settings {
    type V = SettingsV;

    open spec fn view(&self) -> SettingsV {
        SettingsV {
            name: self.name@,
            display: self.display@,
            cluster: self.cluster@,
            server: self.server@,
            backstage: self.backstage@,
            nats: self.nats@,
            kube: self.kube@,
            cache: self.cache@,
        }
    }
}

} // verus!
