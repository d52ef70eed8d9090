use confres::load_settings;
use confres::ConfigError;
use confres::Node;
use confres::Settings;

const BASE: &str = "name: svc
display: Service
cluster: main
server:
  port: 8080
  host: 127.0.0.1
backstage:
  name: catalogue
  groups: []
  users: []
nats:
  proxy_url: nats://localhost:4222
cache:
  def_channel_size: 16
  poll_interval: 30
  purge_cache_interval: 60
";

fn no_overlay() -> Vec<(String, String)> {
    Vec::new()
}

fn load(base: &str, envt: &str, overlay: &[(&str, &str)]) -> Result<Settings, ConfigError> {
    let overlay: Vec<(String, String)> = overlay
        .iter()
        .map(|(k, v)| (k.to_string(), v.to_string()))
        .collect();
    load_settings(base, envt, &overlay)
}

#[test]
fn base_alone_binds() {
    let s = load_settings(BASE, "", &no_overlay()).unwrap();
    assert_eq!(s.name, "svc");
    assert_eq!(s.display, "Service");
    assert_eq!(s.cluster, "main");
    assert_eq!(s.server.port, 8080);
    assert_eq!(s.server.host, "127.0.0.1");
    assert_eq!(s.backstage.name, "catalogue");
    assert_eq!(s.nats.proxy_url, "nats://localhost:4222");
    assert_eq!(s.cache.def_channel_size, 16);
    assert_eq!(s.cache.poll_interval, 30);
    assert_eq!(s.cache.purge_cache_interval, 60);
}

#[test]
fn environment_file_wins_on_conflict() {
    let envt = "server:\n  port: 9000\n";
    let s = load_settings(BASE, envt, &no_overlay()).unwrap();
    assert_eq!(s.server.port, 9000);
    // Keys the environment file does not repeat keep the base values.
    assert_eq!(s.server.host, "127.0.0.1");
    assert_eq!(s.name, "svc");
}

#[test]
fn file_precedence_keeps_unrepeated_keys() {
    // The environment file omits server.port entirely.
    let envt = "display: ServiceProd\n";
    let s = load_settings(BASE, envt, &no_overlay()).unwrap();
    assert_eq!(s.server.port, 8080);
    assert_eq!(s.display, "ServiceProd");
}

#[test]
fn overlay_wins_over_files() {
    let envt = "server:\n  port: 9000\n";
    let s = load(BASE, envt, &[("APP_SERVER__PORT", "9090")]).unwrap();
    assert_eq!(s.server.port, 9090);
    assert_eq!(s.server.host, "127.0.0.1");
}

#[test]
fn overlay_without_prefix_is_ignored() {
    let s = load(BASE, "", &[("OTHER_SERVER__PORT", "9090")]).unwrap();
    assert_eq!(s.server.port, 8080);
}

#[test]
fn numeric_string_coerced() {
    let envt = "cache:\n  poll_interval: \"30\"\n";
    let s = load_settings(BASE, envt, &no_overlay()).unwrap();
    assert_eq!(s.cache.poll_interval, 30);
}

#[test]
fn non_numeric_string_is_type_mismatch() {
    let envt = "cache:\n  poll_interval: \"thirty\"\n";
    let r = load_settings(BASE, envt, &no_overlay());
    match r {
        Err(ConfigError::TypeMismatch(path, _)) => {
            assert_eq!(path, vec!["cache".to_string(), "poll_interval".to_string()]);
        },
        _ => panic!("a non-numeric string must fail binding"),
    }
}

#[test]
fn port_out_of_range_is_type_mismatch() {
    let envt = "server:\n  port: 70000\n";
    let r = load_settings(BASE, envt, &no_overlay());
    match r {
        Err(ConfigError::TypeMismatch(path, _)) => {
            assert_eq!(path, vec!["server".to_string(), "port".to_string()]);
        },
        _ => panic!("an out-of-range port must fail binding"),
    }
}

#[test]
fn absent_kube_defaults() {
    let s = load_settings(BASE, "", &no_overlay()).unwrap();
    assert_eq!(s.kube.use_tls, false);
    assert!(s.kube.resources.is_empty());
}

#[test]
fn resource_defaults_filled() {
    let envt = "kube:
  use_tls: true
  resources:
    - namespaces: [default]
";
    let s = load_settings(BASE, envt, &no_overlay()).unwrap();
    assert_eq!(s.kube.use_tls, true);
    assert_eq!(s.kube.resources.len(), 1);
    let r = &s.kube.resources[0];
    assert_eq!(r.name, "events");
    assert_eq!(r.namespaces, vec!["default".to_string()]);
    assert!(r.api_groups.is_none());
    assert!(r.label_selectors.is_empty());
    assert!(r.field_selectors.is_empty());
    assert_eq!(r.event_type, "axyom.k8s.event.v1");
}

#[test]
fn resource_defaults_match_default_impl() {
    let d = confres::Resource::default();
    assert_eq!(d.name, "events");
    assert_eq!(d.event_type, "axyom.k8s.event.v1");
    assert!(d.namespaces.is_empty());
    assert!(d.api_groups.is_none());
    let k = confres::KubeSettings::default();
    assert_eq!(k.use_tls, false);
    assert!(k.resources.is_empty());
}

#[test]
fn explicit_resource_fields_kept() {
    let envt = "kube:
  use_tls: false
  resources:
    - name: pods
      namespaces: [a, b]
      api_groups: [apps]
      label_selectors: [x=y]
      field_selectors: [status.phase=Running]
      event_type: custom.event
";
    let s = load_settings(BASE, envt, &no_overlay()).unwrap();
    let r = &s.kube.resources[0];
    assert_eq!(r.name, "pods");
    assert_eq!(r.namespaces, vec!["a".to_string(), "b".to_string()]);
    assert_eq!(r.api_groups, Some(vec!["apps".to_string()]));
    assert_eq!(r.label_selectors, vec!["x=y".to_string()]);
    assert_eq!(r.field_selectors, vec!["status.phase=Running".to_string()]);
    assert_eq!(r.event_type, "custom.event");
}

#[test]
fn missing_mandatory_field_reported() {
    let base = "name: svc
display: Service
cluster: main
server:
  port: 8080
  host: h
backstage:
  name: n
  groups: []
  users: []
cache:
  def_channel_size: 1
  poll_interval: 1
  purge_cache_interval: 1
";
    let r = load_settings(base, "", &no_overlay());
    match r {
        Err(ConfigError::MissingField(path)) => {
            assert_eq!(path, vec!["nats".to_string()]);
        },
        _ => panic!("a missing mandatory subtree must fail binding"),
    }
}

#[test]
fn malformed_yaml_is_parse_error() {
    let r = load_settings("a: [unclosed\n", "", &no_overlay());
    assert!(matches!(r, Err(ConfigError::ParseError)));
    let r2 = load_settings(BASE, "b: [also unclosed\n", &no_overlay());
    assert!(matches!(r2, Err(ConfigError::ParseError)));
}

#[test]
fn backstage_numeric_name_stored_as_string() {
    let envt = "backstage:\n  name: 123\n";
    let s = load_settings(BASE, envt, &no_overlay()).unwrap();
    assert_eq!(s.backstage.name, "123");
}

#[test]
fn backstage_entities_carried_structurally() {
    let envt = "backstage:
  name: n
  annotations:
    team: platform
  groups:
    - name: g1
  users:
    - name: u1
  domains:
    - name: d1
";
    let s = load_settings(BASE, envt, &no_overlay()).unwrap();
    assert_eq!(s.backstage.groups.len(), 1);
    assert_eq!(s.backstage.users.len(), 1);
    assert_eq!(s.backstage.domains.as_ref().unwrap().len(), 1);
    let ann = s.backstage.annotations.as_ref().unwrap();
    assert_eq!(ann.len(), 1);
    assert_eq!(ann[0].0, "team");
    assert_eq!(ann[0].1, "platform");
}

#[test]
fn nested_overlay_path_maps_to_tree() {
    let s = load(
        BASE,
        "",
        &[("APP_CACHE__POLL_INTERVAL", "77"), ("APP_CACHE__PURGE_CACHE_INTERVAL", "88")],
    )
    .unwrap();
    assert_eq!(s.cache.poll_interval, 77);
    assert_eq!(s.cache.purge_cache_interval, 88);
}

#[test]
fn later_overlay_entry_wins() {
    let s = load(
        BASE,
        "",
        &[("APP_SERVER__PORT", "1111"), ("APP_SERVER__PORT", "2222")],
    )
    .unwrap();
    assert_eq!(s.server.port, 2222);
}

#[test]
fn overlay_value_is_coerced_like_a_string() {
    let r = load(BASE, "", &[("APP_SERVER__PORT", "not-a-number")]);
    assert!(matches!(r, Err(ConfigError::TypeMismatch(_, _))));
}

fn assert_settings_eq(a: &Settings, b: &Settings) {
    assert_eq!(a.name, b.name);
    assert_eq!(a.display, b.display);
    assert_eq!(a.cluster, b.cluster);
    assert_eq!(a.server.port, b.server.port);
    assert_eq!(a.server.host, b.server.host);
    assert_eq!(a.backstage.name, b.backstage.name);
    assert_eq!(a.backstage.groups.len(), b.backstage.groups.len());
    assert_eq!(a.backstage.users.len(), b.backstage.users.len());
    assert_eq!(a.nats.proxy_url, b.nats.proxy_url);
    assert_eq!(a.kube.use_tls, b.kube.use_tls);
    assert_eq!(a.kube.resources.len(), b.kube.resources.len());
    assert_eq!(a.cache.def_channel_size, b.cache.def_channel_size);
    assert_eq!(a.cache.poll_interval, b.cache.poll_interval);
    assert_eq!(a.cache.purge_cache_interval, b.cache.purge_cache_interval);
}

#[test]
fn binding_same_sources_twice_is_identical() {
    let envt = "server:\n  port: 9000\n";
    let overlay = [("APP_CACHE__POLL_INTERVAL", "77")];
    let s1 = load(BASE, envt, &overlay).unwrap();
    let s2 = load(BASE, envt, &overlay).unwrap();
    assert_settings_eq(&s1, &s2);
}

#[test]
fn binding_same_tree_twice_is_identical() {
    let tree = || {
        Node::Table(vec![
            ("name".to_string(), Node::Str("svc".to_string())),
            ("display".to_string(), Node::Str("d".to_string())),
            ("cluster".to_string(), Node::Str("c".to_string())),
            (
                "server".to_string(),
                Node::Table(vec![
                    ("port".to_string(), Node::Int(8080)),
                    ("host".to_string(), Node::Str("h".to_string())),
                ]),
            ),
            (
                "backstage".to_string(),
                Node::Table(vec![
                    ("name".to_string(), Node::Str("n".to_string())),
                    ("groups".to_string(), Node::List(vec![])),
                    ("users".to_string(), Node::List(vec![])),
                ]),
            ),
            (
                "nats".to_string(),
                Node::Table(vec![("proxy_url".to_string(), Node::Str("u".to_string()))]),
            ),
            (
                "cache".to_string(),
                Node::Table(vec![
                    ("def_channel_size".to_string(), Node::Int(1)),
                    ("poll_interval".to_string(), Node::Str("2".to_string())),
                    ("purge_cache_interval".to_string(), Node::Int(3)),
                ]),
            ),
        ])
    };
    let t1 = tree();
    let s1 = confres::bind(&t1).unwrap();
    let s2 = confres::bind(&t1).unwrap();
    assert_settings_eq(&s1, &s2);
    assert_eq!(s1.cache.poll_interval, 2);
}

#[test]
fn null_field_counts_as_absent() {
    // An explicit null for the kube subtree takes the documented default.
    let envt = "kube: null\n";
    let s = load_settings(BASE, envt, &no_overlay()).unwrap();
    assert_eq!(s.kube.use_tls, false);
    assert!(s.kube.resources.is_empty());
}

#[test]
fn negative_number_rejected_for_unsigned_field() {
    let envt = "cache:\n  poll_interval: -5\n";
    let r = load_settings(BASE, envt, &no_overlay());
    assert!(matches!(r, Err(ConfigError::TypeMismatch(_, _))));
}

#[test]
fn plus_sign_accepted_in_numeric_string() {
    let envt = "server:\n  port: \"+8081\"\n";
    let s = load_settings(BASE, envt, &no_overlay()).unwrap();
    assert_eq!(s.server.port, 8081);
}
