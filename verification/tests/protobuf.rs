use prost_reflect::prost::Message;
use prost_reflect::prost_types::field_descriptor_proto::{Label, Type};
use prost_reflect::prost_types::{
    DescriptorProto, EnumDescriptorProto, EnumValueDescriptorProto, FieldDescriptorProto,
    FileDescriptorProto, FileDescriptorSet, MessageOptions,
};
use prost_reflect::{DescriptorPool, DynamicMessage};
use rustkube::apimachinery::protobuf::{
    decode_to_json, encode_from_json, is_protobuf, json_to_message, message_name,
    message_to_json, supports, wants_protobuf,
};
use rustkube::apiserver::protobuf_mw::{decode_request, encode_response, path_gvk, plan};
use rustkube::json::Json;
use rustkube::outside::{parse_json, write_json};

fn json(text: &str) -> Json {
    match parse_json(text.as_bytes()) {
        Ok(v) => v,
        Err(e) => panic!("{e}: {text}"),
    }
}

const META: &str = "k8s.io.apimachinery.pkg.apis.meta.v1";
const CORE: &str = "k8s.io.api.core.v1";
const LEASES: &str = "k8s.io.api.coordination.v1";
const EXTENSIONS: &str = "k8s.io.apiextensions_apiserver.pkg.apis.apiextensions.v1";

/// A field of a message: the name of the message is field 6 of its descriptor.
fn of_message(f: FieldDescriptorProto, name: &str) -> FieldDescriptorProto {
    let mut bytes = f.encode_to_vec();
    bytes.push(0x32);
    assert!(name.len() < 128);
    bytes.push(name.len() as u8);
    bytes.extend(name.as_bytes());
    FieldDescriptorProto::decode(bytes.as_slice()).unwrap()
}

/// A field: its name, its number and its type. A type may be `[..]` for a list or
/// `{..}` for a map from strings; one that starts with a dot is a message, and one
/// that starts with an at sign an enum.
fn field(spec: &str, number: i32, parent: &str) -> (FieldDescriptorProto, Option<DescriptorProto>) {
    let (name, kind) = spec.split_once(' ').unwrap();
    let mut f = FieldDescriptorProto {
        name: Some(name.to_string()),
        number: Some(number),
        ..Default::default()
    };
    if let Some(inner) = kind.strip_prefix('{').and_then(|k| k.strip_suffix('}')) {
        let mut entry_name = name[..1].to_uppercase();
        entry_name.push_str(&name[1..]);
        entry_name.push_str("Entry");
        let (key, _) = field("key string", 1, "");
        let (value, _) = field(&format!("value {inner}"), 2, "");
        let entry = DescriptorProto {
            name: Some(entry_name.clone()),
            field: vec![key, value],
            options: Some(MessageOptions { map_entry: Some(true), ..Default::default() }),
            ..Default::default()
        };
        f.set_label(Label::Repeated);
        f.set_type(Type::Message);
        return (of_message(f, &format!("{parent}.{entry_name}")), Some(entry));
    }
    let (label, single) = match kind.strip_prefix('[').and_then(|k| k.strip_suffix(']')) {
        Some(inner) => (Label::Repeated, inner),
        None => (Label::Optional, kind),
    };
    f.set_label(label);
    match single {
        "string" => f.set_type(Type::String),
        "int32" => f.set_type(Type::Int32),
        "int64" => f.set_type(Type::Int64),
        "bool" => f.set_type(Type::Bool),
        "bytes" => f.set_type(Type::Bytes),
        "double" => f.set_type(Type::Double),
        "float" => f.set_type(Type::Float),
        kind if kind.starts_with('@') => {
            f.set_type(Type::Enum);
            return (of_message(f, &kind[1..]), None);
        }
        message => {
            f.set_type(Type::Message);
            return (of_message(f, message), None);
        }
    }
    (f, None)
}

fn message(package: &str, name: &str, fields: &[&str]) -> DescriptorProto {
    let parent = format!(".{package}.{name}");
    let mut m = DescriptorProto { name: Some(name.to_string()), ..Default::default() };
    for (i, spec) in fields.iter().enumerate() {
        let (f, entry) = field(spec, i as i32 + 1, &parent);
        m.field.push(f);
        m.nested_type.extend(entry);
    }
    m
}

fn enumeration(name: &str, values: &[(&str, i32)]) -> EnumDescriptorProto {
    let value = |(n, i): &(&str, i32)| EnumValueDescriptorProto {
        name: Some(n.to_string()),
        number: Some(*i),
        ..Default::default()
    };
    EnumDescriptorProto {
        name: Some(name.to_string()),
        value: values.iter().map(value).collect(),
        ..Default::default()
    }
}

fn file(package: &str, messages: &[(&str, &[&str])], before: &[FileDescriptorProto]) -> FileDescriptorProto {
    FileDescriptorProto {
        name: Some(format!("{package}.proto")),
        package: Some(package.to_string()),
        dependency: before.iter().map(|f| f.name().to_string()).collect(),
        message_type: messages.iter().map(|(n, fs)| message(package, n, fs)).collect(),
        syntax: Some("proto2".to_string()),
        ..Default::default()
    }
}

fn pool() -> DescriptorPool {
    let mut files: Vec<FileDescriptorProto> = Vec::new();
    let mut add = |package: &str, messages: &[(&str, &[&str])]| {
        let f = file(package, messages, &files);
        files.push(f);
    };
    add(
        "k8s.io.apimachinery.pkg.runtime",
        &[
            ("TypeMeta", &["apiVersion string", "kind string"]),
            (
                "Unknown",
                &[
                    "typeMeta .k8s.io.apimachinery.pkg.runtime.TypeMeta",
                    "raw bytes",
                    "contentEncoding string",
                    "contentType string",
                ],
            ),
            ("RawExtension", &["raw bytes"]),
        ],
    );
    add("k8s.io.apimachinery.pkg.api.resource", &[("Quantity", &["string string"])]);
    add(
        "k8s.io.apimachinery.pkg.util.intstr",
        &[("IntOrString", &["type int64", "intVal int32", "strVal string"])],
    );
    let time = ".k8s.io.apimachinery.pkg.apis.meta.v1.Time";
    let meta_time = format!("creationTimestamp {time}");
    add(
        META,
        &[
            ("Time", &["seconds int64", "nanos int32"]),
            ("MicroTime", &["seconds int64", "nanos int32"]),
            (
                "ObjectMeta",
                &["name string", "namespace string", "uid string", "labels {string}", &meta_time],
            ),
            ("DeleteOptions", &["gracePeriodSeconds int64"]),
        ],
    );
    let meta = "metadata .k8s.io.apimachinery.pkg.apis.meta.v1.ObjectMeta";
    let spec = |package: &str, name: &str| format!("spec .{package}.{name}");
    add(
        LEASES,
        &[
            (
                "LeaseSpec",
                &[
                    "holderIdentity string",
                    "leaseDurationSeconds int32",
                    "acquireTime .k8s.io.apimachinery.pkg.apis.meta.v1.MicroTime",
                    "renewTime .k8s.io.apimachinery.pkg.apis.meta.v1.MicroTime",
                    "leaseTransitions int32",
                ],
            ),
            ("Lease", &[meta, &spec(LEASES, "LeaseSpec")]),
        ],
    );
    add(
        CORE,
        &[
            (
                "ResourceRequirements",
                &["limits {.k8s.io.apimachinery.pkg.api.resource.Quantity}"],
            ),
            ("ContainerPort", &["containerPort int32", "protocol string"]),
            (
                "Container",
                &[
                    "name string",
                    "image string",
                    "ports [.k8s.io.api.core.v1.ContainerPort]",
                    "resources .k8s.io.api.core.v1.ResourceRequirements",
                ],
            ),
            ("PodSpec", &["containers [.k8s.io.api.core.v1.Container]"]),
            ("Pod", &[meta, &spec(CORE, "PodSpec")]),
            (
                "ServicePort",
                &[
                    "port int32",
                    "protocol string",
                    "targetPort .k8s.io.apimachinery.pkg.util.intstr.IntOrString",
                ],
            ),
            ("ServiceSpec", &["ports [.k8s.io.api.core.v1.ServicePort]"]),
            ("Service", &[meta, &spec(CORE, "ServiceSpec")]),
            ("Secret", &[meta, "data {bytes}"]),
            ("Numbers", &["wide double", "narrow float", "big int64"]),
            ("Painted", &["color @.k8s.io.api.core.v1.Color", "more [@.k8s.io.api.core.v1.Color]"]),
        ],
    );
    let props = format!(".{EXTENSIONS}.JSONSchemaProps");
    let schema = format!("schema {props}");
    add(
        EXTENSIONS,
        &[
            ("JSON", &["raw bytes"]),
            (
                "JSONSchemaProps",
                &[
                    "type string",
                    &format!("additionalProperties .{EXTENSIONS}.JSONSchemaPropsOrBool"),
                    &format!("properties {{{props}}}"),
                    &format!("items .{EXTENSIONS}.JSONSchemaPropsOrArray"),
                    &format!("default .{EXTENSIONS}.JSON"),
                    &format!("dependencies {{.{EXTENSIONS}.JSONSchemaPropsOrStringArray}}"),
                ],
            ),
            ("JSONSchemaPropsOrBool", &["allows bool", &schema]),
            ("JSONSchemaPropsOrArray", &[&schema, &format!("jSONSchemas [{props}]")]),
            ("JSONSchemaPropsOrStringArray", &[&schema, "property [string]"]),
            ("CustomResourceValidation", &[&format!("openAPIV3Schema {props}")]),
            ("CustomResourceDefinitionNames", &["plural string", "kind string"]),
            (
                "CustomResourceDefinitionVersion",
                &[
                    "name string",
                    "served bool",
                    "storage bool",
                    &format!("schema .{EXTENSIONS}.CustomResourceValidation"),
                ],
            ),
            (
                "CustomResourceDefinitionSpec",
                &[
                    "group string",
                    "scope string",
                    &format!("names .{EXTENSIONS}.CustomResourceDefinitionNames"),
                    &format!("versions [.{EXTENSIONS}.CustomResourceDefinitionVersion]"),
                ],
            ),
            (
                "CustomResourceDefinition",
                &[meta, &spec(EXTENSIONS, "CustomResourceDefinitionSpec")],
            ),
        ],
    );
    for (package, kind) in [
        ("k8s.io.api.policy.v1", "PodDisruptionBudget"),
        ("k8s.io.api.autoscaling.v2", "HorizontalPodAutoscaler"),
        ("k8s.io.api.scheduling.v1", "PriorityClass"),
        ("k8s.io.api.admissionregistration.v1", "ValidatingWebhookConfiguration"),
        ("k8s.io.api.certificates.v1", "CertificateSigningRequest"),
        ("k8s.io.api.networking.v1", "NetworkPolicy"),
    ] {
        add(package, &[(kind, &[meta])]);
    }
    for f in files.iter_mut().filter(|f| f.package() == CORE) {
        f.enum_type.push(enumeration("Color", &[("RED", 0), ("BLUE", 5), ("GREEN", -3)]));
    }
    let set = FileDescriptorSet { file: files };
    DescriptorPool::from_file_descriptor_set(set).unwrap()
}

#[test]
fn magic_detection() {
    assert!(is_protobuf(b"k8s\x00rest"));
    assert!(!is_protobuf(b"{\"a\":1}"));
    assert!(!is_protobuf(b"k8"));
}

#[test]
fn content_type_negotiation() {
    assert!(wants_protobuf("application/vnd.kubernetes.protobuf"));
    assert!(wants_protobuf("application/vnd.kubernetes.protobuf;stream=watch"));
    assert!(!wants_protobuf("application/json"));
}

#[test]
fn supports_known_and_unknown_groups() {
    let pool = pool();
    assert!(supports(&pool, "coordination.k8s.io/v1", "Lease"));
    assert!(!supports(&pool, "example.com/v1", "Widget"));
}

#[test]
fn lease_json_round_trips_through_protobuf() {
    let pool = pool();
    let lease = json(
        r#"{
            "apiVersion": "coordination.k8s.io/v1",
            "kind": "Lease",
            "metadata": {
                "name": "cilium-operator-resource-lock",
                "namespace": "kube-system"
            },
            "spec": {
                "holderIdentity": "cilium-operator-abc",
                "leaseDurationSeconds": 15,
                "renewTime": "2026-07-19T12:34:56.123456Z",
                "leaseTransitions": 3
            }
        }"#,
    );
    let wire = encode_from_json(&pool, &lease, "coordination.k8s.io/v1", "Lease").unwrap();
    assert!(is_protobuf(&wire), "encoded body must carry the magic");
    let back = decode_to_json(&pool, &wire, "", "").unwrap();

    assert!(back.at("apiVersion").is_text("coordination.k8s.io/v1"));
    assert!(back.at("kind").is_text("Lease"));
    assert!(back.at("metadata").at("name").is_text("cilium-operator-resource-lock"));
    assert!(back.at("metadata").at("namespace").is_text("kube-system"));
    assert!(back.at("spec").at("holderIdentity").is_text("cilium-operator-abc"));
    assert_eq!(back.at("spec").at("leaseDurationSeconds").as_i64(), Some(15));
    assert_eq!(back.at("spec").at("leaseTransitions").as_i64(), Some(3));
    // MicroTime survives the round trip as an RFC3339 string.
    assert!(back.at("spec").at("renewTime").is_text("2026-07-19T12:34:56.123456Z"));
    assert!(back.equals(&lease));
}

#[test]
fn pod_round_trips_quantity_intorstring_bytes_and_maps() {
    let pool = pool();
    let pod = json(
        r#"{
            "apiVersion": "v1",
            "kind": "Pod",
            "metadata": {
                "name": "p1",
                "namespace": "default",
                "labels": { "app": "cilium", "tier": "node" }
            },
            "spec": {
                "containers": [{
                    "name": "c",
                    "image": "busybox",
                    "ports": [{ "containerPort": 8080, "protocol": "TCP" }],
                    "resources": {
                        "limits": { "cpu": "500m", "memory": "128Mi" }
                    }
                }]
            }
        }"#,
    );
    let wire = encode_from_json(&pool, &pod, "v1", "Pod").unwrap();
    let back = decode_to_json(&pool, &wire, "", "").unwrap();
    assert!(back.at("kind").is_text("Pod"));
    assert!(back.at("metadata").at("labels").at("app").is_text("cilium"));
    let c = back.at("spec").at("containers").item(0);
    assert!(c.at("name").is_text("c"));
    assert_eq!(c.at("ports").item(0).at("containerPort").as_i64(), Some(8080));
    // Quantity survives as its canonical string.
    assert!(c.at("resources").at("limits").at("cpu").is_text("500m"));
    assert!(c.at("resources").at("limits").at("memory").is_text("128Mi"));
    assert!(back.equals(&pod));
}

#[test]
fn service_nodeport_intorstring_targetport() {
    let pool = pool();
    let svc = json(
        r#"{
            "apiVersion": "v1",
            "kind": "Service",
            "metadata": { "name": "s", "namespace": "default" },
            "spec": {
                "ports": [
                    { "port": 80, "targetPort": 8080, "protocol": "TCP" },
                    { "port": 443, "targetPort": "https", "protocol": "TCP" }
                ]
            }
        }"#,
    );
    let wire = encode_from_json(&pool, &svc, "v1", "Service").unwrap();
    let back = decode_to_json(&pool, &wire, "", "").unwrap();
    let ports = back.at("spec").at("ports");
    assert_eq!(ports.item(0).at("targetPort").as_i64(), Some(8080));
    assert!(ports.item(1).at("targetPort").is_text("https"));
}

#[test]
fn crd_round_trips_including_schema_union_types() {
    let pool = pool();
    let crd = json(
        r#"{
            "apiVersion": "apiextensions.k8s.io/v1",
            "kind": "CustomResourceDefinition",
            "metadata": { "name": "ciliumnetworkpolicies.cilium.io" },
            "spec": {
                "group": "cilium.io",
                "scope": "Namespaced",
                "names": { "plural": "ciliumnetworkpolicies", "kind": "CiliumNetworkPolicy" },
                "versions": [{
                    "name": "v2",
                    "served": true,
                    "storage": true,
                    "schema": { "openAPIV3Schema": {
                        "type": "object",
                        "additionalProperties": true,
                        "properties": {
                            "spec": {
                                "type": "object",
                                "properties": {
                                    "endpointSelector": { "type": "object", "additionalProperties": false }
                                }
                            },
                            "tags": { "type": "array", "items": { "type": "string" } }
                        }
                    }}
                }]
            }
        }"#,
    );
    let wire =
        encode_from_json(&pool, &crd, "apiextensions.k8s.io/v1", "CustomResourceDefinition")
            .unwrap();
    let back = decode_to_json(&pool, &wire, "", "").unwrap();
    assert!(back.at("kind").is_text("CustomResourceDefinition"));
    assert!(back.at("spec").at("group").is_text("cilium.io"));
    let schema = back.at("spec").at("versions").item(0).at("schema").at("openAPIV3Schema");
    // additionalProperties: the bool survives both true and false.
    assert_eq!(schema.at("additionalProperties").as_bool(), Some(true));
    let selector = schema.at("properties").at("spec").at("properties").at("endpointSelector");
    assert_eq!(selector.at("additionalProperties").as_bool(), Some(false));
    // items: the single schema survives.
    let tags = schema.at("properties").at("tags");
    assert!(tags.at("items").at("type").is_text("string"));
    // Only the object's own type stands in the envelope.
    assert!(back.at("spec").at("names").at("kind").is_text("CiliumNetworkPolicy"));
    assert!(back.equals(&crd));
}

#[test]
fn blank_envelope_typemeta_falls_back_to_hint() {
    let pool = pool();
    let crd = json(
        r#"{
            "apiVersion": "apiextensions.k8s.io/v1",
            "kind": "CustomResourceDefinition",
            "metadata": { "name": "x.cilium.io" },
            "spec": { "group": "cilium.io" }
        }"#,
    );
    // A body with the object but no type in its envelope.
    let (av, kind) = ("apiextensions.k8s.io/v1", "CustomResourceDefinition");
    let typed = encode_from_json(&pool, &crd, av, kind).unwrap();
    let unknown = pool.get_message_by_name("k8s.io.apimachinery.pkg.runtime.Unknown").unwrap();
    let mut envelope = DynamicMessage::decode(unknown, &typed[4..]).unwrap();
    envelope.clear_field_by_name("typeMeta");
    let mut wire = b"k8s\x00".to_vec();
    wire.extend(envelope.encode_to_vec());

    // No hint: fails, for the type is blank.
    let err = decode_to_json(&pool, &wire, "", "").unwrap_err();
    assert_eq!(err, "no protobuf schema for \"\" \"\"");
    // With the hint of the endpoint: decodes and gets the type from the hint.
    let back = decode_to_json(&pool, &wire, av, kind).unwrap();
    assert!(back.at("apiVersion").is_text("apiextensions.k8s.io/v1"));
    assert!(back.at("kind").is_text("CustomResourceDefinition"));
    assert!(back.at("spec").at("group").is_text("cilium.io"));
}

#[test]
fn all_declared_groups_resolve() {
    let pool = pool();
    for (av, kind) in [
        ("apiextensions.k8s.io/v1", "CustomResourceDefinition"),
        ("policy/v1", "PodDisruptionBudget"),
        ("autoscaling/v2", "HorizontalPodAutoscaler"),
        ("scheduling.k8s.io/v1", "PriorityClass"),
        ("admissionregistration.k8s.io/v1", "ValidatingWebhookConfiguration"),
        ("certificates.k8s.io/v1", "CertificateSigningRequest"),
        ("networking.k8s.io/v1", "NetworkPolicy"),
    ] {
        assert!(supports(&pool, av, kind), "protobuf must support {av} {kind}");
    }
}

#[test]
fn unknown_fields_are_ignored_not_fatal() {
    let pool = pool();
    let lease = json(
        r#"{
            "apiVersion": "coordination.k8s.io/v1",
            "kind": "Lease",
            "metadata": { "name": "x", "bogusField": "ignore me" },
            "spec": { "holderIdentity": "h" }
        }"#,
    );
    let wire = encode_from_json(&pool, &lease, "coordination.k8s.io/v1", "Lease").unwrap();
    let back = decode_to_json(&pool, &wire, "", "").unwrap();
    assert!(back.at("metadata").at("name").is_text("x"));
    assert!(back.at("metadata").get("bogusField").is_none());
    assert!(back.at("spec").at("holderIdentity").is_text("h"));
}

#[test]
fn bytes_numbers_and_documents_survive() {
    let pool = pool();
    let secret = json(r#"{"metadata": {"name": "s"}, "data": {"a": "aGk=", "b": "!"}}"#);
    let wire = encode_from_json(&pool, &secret, "v1", "Secret").unwrap();
    let back = decode_to_json(&pool, &wire, "", "").unwrap();
    assert!(back.at("data").at("a").is_text("aGk="));
    assert!(back.at("data").at("b").is_text(""), "what is no base64 is no bytes");

    let numbers = json(r#"{"wide": 1.5, "narrow": 0.25, "big": "9007199254740993"}"#);
    let wire = encode_from_json(&pool, &numbers, "v1", "Numbers").unwrap();
    let back = decode_to_json(&pool, &wire, "", "").unwrap();
    assert!(back.at("wide").equals(&json("1.5")));
    assert!(back.at("narrow").equals(&json("0.25")));
    assert_eq!(back.at("big").as_i64(), Some(9007199254740993));

    let props = "k8s.io.apiextensions_apiserver.pkg.apis.apiextensions.v1.JSONSchemaProps";
    let schema = json(
        r#"{"default": {"a": [1, null]}, "items": [{"type": "string"}, {"type": "integer"}],
            "dependencies": {"x": ["y", "z"], "w": {"type": "object"}}}"#,
    );
    let fields = json_to_message(&pool, &schema, props);
    assert!(message_to_json(props, &fields).equals(&schema));
}

#[test]
fn an_enum_survives_as_its_number() {
    let pool = pool();
    let painted = json(r#"{"color": "BLUE", "more": ["GREEN", 0, 9, "PINK"]}"#);
    let wire = encode_from_json(&pool, &painted, "v1", "Painted").unwrap();
    let back = decode_to_json(&pool, &wire, "", "").unwrap();
    assert!(back.at("color").equals(&json("5")));
    assert!(back.at("more").equals(&json("[-3, 0, 9, 0]")), "{}", write_json(&back));
    let wire = encode_from_json(&pool, &back, "v1", "Painted").unwrap();
    assert!(decode_to_json(&pool, &wire, "", "").unwrap().equals(&back));
}

#[test]
fn times_are_written_in_their_own_precision() {
    let pool = pool();
    let meta = "k8s.io.apimachinery.pkg.apis.meta.v1.ObjectMeta";
    let dated = json(r#"{"creationTimestamp": "2026-01-01T00:00:00Z"}"#);
    let fields = json_to_message(&pool, &dated, meta);
    assert!(message_to_json(meta, &fields).equals(&dated));
    // The start of 1970 is no time, and so is what cannot be read.
    for text in [r#"{"creationTimestamp": "1970-01-01T00:00:00Z"}"#, r#"{"creationTimestamp": "x"}"#] {
        let fields = json_to_message(&pool, &json(text), meta);
        assert!(message_to_json(meta, &fields).at("creationTimestamp").is_null());
    }
}

#[test]
fn a_body_that_is_none_says_why() {
    let pool = pool();
    assert_eq!(
        decode_to_json(&pool, b"{}", "", "").unwrap_err(),
        "body is not k8s protobuf (missing magic)"
    );
    let err = decode_to_json(&pool, b"k8s\x00\xff", "", "").unwrap_err();
    assert!(err.starts_with("bad Unknown envelope: "), "{err}");
    assert_eq!(
        encode_from_json(&pool, &json("{}"), "example.com/v1", "Widget").unwrap_err(),
        "no protobuf schema for example.com/v1 Widget"
    );
    let empty = DescriptorPool::new();
    assert_eq!(
        decode_to_json(&empty, b"k8s\x00", "", "").unwrap_err(),
        "descriptor missing: k8s.io.apimachinery.pkg.runtime.Unknown"
    );
    assert_eq!(
        message_name(&pool, "v1", "Pod").as_deref(),
        Some("k8s.io.api.core.v1.Pod")
    );
}

#[test]
fn path_gvk_derivation() {
    // Core, namespaced, subresource, and grouped/CRD paths.
    assert_eq!(
        path_gvk("/api/v1/namespaces/default/configmaps"),
        ("v1".into(), "ConfigMap".into())
    );
    assert_eq!(
        path_gvk("/apis/apiextensions.k8s.io/v1/customresourcedefinitions"),
        ("apiextensions.k8s.io/v1".into(), "CustomResourceDefinition".into())
    );
    assert_eq!(path_gvk("/api/v1/namespaces/default/pods/p1"), ("v1".into(), "Pod".into()));
    assert_eq!(
        path_gvk("/apis/apps/v1/namespaces/default/deployments/d/status"),
        ("apps/v1".into(), "Deployment".into())
    );
    assert_eq!(
        path_gvk("/apis/coordination.k8s.io/v1/namespaces/kube-system/leases/lock"),
        ("coordination.k8s.io/v1".into(), "Lease".into())
    );
    // Non-resource paths yield no type.
    assert_eq!(path_gvk("/healthz"), ("".into(), "".into()));
}

#[test]
fn a_request_is_read_and_an_answer_is_written_as_the_client_asks() {
    let pool = pool();
    let pb = "application/vnd.kubernetes.protobuf";
    let path = "/api/v1/namespaces/default/pods";
    let p = plan("POST", path, pb, "application/vnd.kubernetes.protobuf,application/json");
    assert!(p.decode && p.encode);
    assert_eq!((p.api_version.as_str(), p.kind.as_str()), ("v1", "Pod"));
    assert!(!plan("GET", path, pb, "application/json").decode);
    let d = plan("DELETE", path, pb, "");
    assert_eq!((d.api_version.as_str(), d.kind.as_str()), ("v1", "DeleteOptions"));

    let pod = json(r#"{"apiVersion": "v1", "kind": "Pod", "metadata": {"name": "p"}}"#);
    let text = write_json(&pod);
    let wire = encode_response(&pool, "application/json", text.as_bytes()).unwrap();
    let read = decode_request(&pool, &wire, &p).unwrap().unwrap();
    assert!(read.equals(&pod));
    assert!(decode_request(&pool, b"", &p).unwrap().is_none());
    let (code, status) = decode_request(&pool, b"{}", &p).unwrap_err();
    assert_eq!(code, 415);
    assert!(status.at("message").is_text(
        "cannot decode protobuf request: body is not k8s protobuf (missing magic)"
    ));
    // A watch stays as it is, and so does what the pool does not know.
    assert!(encode_response(&pool, "application/json;stream=watch", text.as_bytes()).is_none());
    assert!(encode_response(&pool, "application/json", b"{\"kind\":\"Status\"}").is_none());
    assert!(encode_response(&pool, "application/json", b"not json").is_none());
}
