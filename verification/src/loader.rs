use vstd::prelude::*;
use crate::binder::{bind, bind_v};
use crate::errors::{ConfigError, ConfigErrorV};
use crate::model::{pairs_view, Settings, SettingsV};
use crate::overlay::{overlay_tree, overlay_v};
use crate::tree::{merge, merge_s, ValV, Node};

verus! {

/// The tree that parsing a YAML document yields, or nothing for a
/// malformed document.  The result depends on the text alone.
pub uninterp spec fn yaml_parse(s: Seq<char>) -> Option<Node>;

/// Relies on serde_yaml::Value: converts a parsed document into the
/// crate's own tree, one arm per variant.  Mappings keep document
/// order; integers outside the signed 64-bit range become null;
/// non-string mapping keys become empty keys; a tag is dropped in
/// favour of the tagged value.
#[verifier::external_body]
fn yaml_to_tree(y: serde_yaml::Value) -> Node {
    match y {
        serde_yaml::Value::Null => Node::Null,
        serde_yaml::Value::Bool(b) => Node::Bool(b),
        serde_yaml::Value::Number(n) => match n.as_i64() {
            Some(i) => Node::Int(i),
            None => Node::Null,
        },
        serde_yaml::Value::String(s) => Node::Str(s),
        serde_yaml::Value::Sequence(xs) => Node::List(xs.into_iter().map(yaml_to_tree).collect()),
        serde_yaml::Value::Mapping(m) => Node::Table(
            m.into_iter().map(|(k, v)| (yaml_key(k), yaml_to_tree(v))).collect(),
        ),
        serde_yaml::Value::Tagged(t) => yaml_to_tree(t.value),
    }
}

/// Relies on serde_yaml::Value::as_str: a mapping key as a string.
#[verifier::external_body]
fn yaml_key(k: serde_yaml::Value) -> String {
    match k.as_str() {
        Some(s) => s.to_string(),
        None => String::new(),
    }
}

/// Relies on serde_yaml::from_str::<serde_yaml::Value>: parses one YAML
/// document.  The parse is a function of the text alone, and mapping
/// order follows the document, so the converted tree is named by
/// [`yaml_parse`].
#[verifier::external_body]
fn parse_yaml(text: &str) -> (r: Option<Node>)
    ensures
        r == yaml_parse(text@),
{
    match serde_yaml::from_str::<serde_yaml::Value>(text) {
        Ok(y) => Some(yaml_to_tree(y)),
        Err(_) => None,
    }
}

/// An empty or all-comment document parses to a bare null: it denotes
/// no keys at all, so it merges as an empty table.
pub open spec fn norm_root(v: ValV) -> ValV {
    if v is Null {
        ValV::Table(Seq::empty())
    } else {
        v
    }
}

/// What loading and binding the three sources yields: parse both files,
/// merge them with the overlay in increasing precedence, and bind.
pub open spec fn load_v(
    base: Seq<char>,
    envt: Seq<char>,
    overlay: Seq<(Seq<char>, Seq<char>)>,
) -> Result<SettingsV, ConfigErrorV> {
    match yaml_parse(base) {
        None => Err(ConfigErrorV::ParseError),
        Some(b) => match yaml_parse(envt) {
            None => Err(ConfigErrorV::ParseError),
            Some(e) => bind_v(
                merge_s(merge_s(norm_root(b@), norm_root(e@)), overlay_v(overlay)),
            ),
        },
    }
}

/// Layer the base file, the environment file and the variable overlay,
/// in that precedence, and bind the merged tree into the typed model,
/// exactly as [`load_v`] describes.
pub fn load_settings(base_text: &str, env_text: &str, overlay: &Vec<(String, String)>) -> (r:
    Result<Settings, ConfigError>)
    ensures
        (match r {
            Ok(s) => load_v(base_text@, env_text@, pairs_view(overlay@)) == Ok::<
                SettingsV,
                ConfigErrorV,
            >(s@),
            Err(e) => load_v(base_text@, env_text@, pairs_view(overlay@)) == Err::<
                SettingsV,
                ConfigErrorV,
            >(e@),
        }),
{
    let b = match parse_yaml(base_text) {
        None => {
            return Err(ConfigError::ParseError);
        },
        Some(b) => b,
    };
    let e = match parse_yaml(env_text) {
        None => {
            return Err(ConfigError::ParseError);
        },
        Some(e) => e,
    };
    let b = norm_x(b);
    let e = norm_x(e);
    let files = merge(&b, &e);
    let ov = overlay_tree(overlay);
    let merged = merge(&files, &ov);
    bind(&merged)
}

fn norm_x(v: Node) -> (r: Node)
    ensures
        r@ == norm_root(v@),
{
    match v {
        Node::Null => {
            let empty: Vec<(String, Node)> = Vec::new();
            proof {
                assert(crate::tree::tbl_view(empty@) =~= Seq::<(Seq<char>, ValV)>::empty());
            }
            Node::Table(empty)
        },
        other => other,
    }
}

} // verus!
