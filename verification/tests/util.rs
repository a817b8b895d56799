use skate_util::fingerprint::{
    calc_k8s_resource_hash, canonical_form, hash_k8s_resource, metadata_name, GetSkateLabels,
    LabelError, ResourceDescription,
};
use skate_util::hash::hash_string;
use skate_util::image::{split_container_image, ImageTagFormat};
use skate_util::labels::{get_label_value, get_skate_label_value, Label, SkateLabels};
use skate_util::names::NamespacedName;
use skate_util::slug::{slugify, slugify_owned};
use std::collections::hash_map::DefaultHasher;
use std::hash::{Hash, Hasher};

#[test]
fn test_get_label_value() {
    let labels = vec![
        Label::new("skate.io/name", "test"),
        Label::new("skate.io/namespace", "default"),
    ];
    let name = get_label_value(&Some(labels), "skate.io/name");
    assert_eq!(name, Some("test".to_string()));
}

#[test]
fn test_skate_labels_serialize() {
    assert_eq!("skate.io/name", SkateLabels::Name.to_string());
    assert_eq!("skate.io/daemonset", SkateLabels::Daemonset.to_string());
}

#[test]
fn label_value_absent() {
    let labels = vec![Label::new("a", "1")];
    assert_eq!(get_label_value(&Some(labels), "b"), None);
    assert_eq!(get_label_value(&None, "a"), None);
}

#[test]
fn skate_label_value() {
    let labels = Some(vec![Label::new("x", "y"), Label::new("skate.io/hash", "abc")]);
    assert_eq!(get_skate_label_value(&labels, &SkateLabels::Hash), Some("abc".to_string()));
    assert_eq!(get_skate_label_value(&labels, &SkateLabels::Arch), None);
    assert_eq!(get_skate_label_value(&None, &SkateLabels::Hash), None);
}

#[test]
fn skate_labels_all_texts() {
    let expected = [
        (SkateLabels::Name, "skate.io/name"),
        (SkateLabels::Namespace, "skate.io/namespace"),
        (SkateLabels::Hash, "skate.io/hash"),
        (SkateLabels::Replica, "skate.io/replica"),
        (SkateLabels::Arch, "skate.io/arch"),
        (SkateLabels::Daemonset, "skate.io/daemonset"),
        (SkateLabels::Deployment, "skate.io/deployment"),
        (SkateLabels::Nodename, "skate.io/nodename"),
        (SkateLabels::Hostname, "skate.io/hostname"),
        (SkateLabels::Cronjob, "skate.io/cronjob"),
    ];
    for (label, text) in expected {
        assert_eq!(label.to_string(), text);
        assert_eq!(SkateLabels::parse(text), Some(label));
    }
}

#[test]
fn skate_labels_parse_rejects() {
    assert_eq!(SkateLabels::parse("name"), None);
    assert_eq!(SkateLabels::parse("skate.io/Name"), None);
    assert_eq!(SkateLabels::parse(""), None);
}

#[test]
fn slugify_hello_world() {
    assert_eq!(slugify("Hello, World!"), "hello-world");
}

#[test]
fn slugify_only_separators() {
    assert_eq!(slugify("---"), "");
    assert_eq!(slugify(""), "");
}

#[test]
fn slugify_collapses_and_trims() {
    assert_eq!(slugify("  a  --  B__c9  "), "a-b-c9");
    assert_eq!(slugify("Already-a-slug"), "already-a-slug");
}

#[test]
fn slugify_transliterates() {
    assert_eq!(slugify("Æther"), "aether");
    assert_eq!(slugify("北京"), "bei-jing");
    assert_eq!(slugify("crème brûlée"), "creme-brulee");
}

#[test]
fn slugify_is_idempotent() {
    for text in ["Hello, World!", "---", "北京 2024", "a--b", "x_y.z", ""] {
        let once = slugify(text);
        assert_eq!(slugify(&once), once);
    }
}

#[test]
fn slugify_has_the_shape_of_a_slug() {
    for text in ["Hello, World!", "--a--", "北京 2024!!", "Ünïcödé  text", "\u{10ffff}"] {
        let slug = slugify(text);
        assert!(!slug.starts_with('-'));
        assert!(!slug.ends_with('-'));
        assert!(!slug.contains("--"));
        assert!(slug.chars().all(|c| c.is_ascii_lowercase() || c.is_ascii_digit() || c == '-'));
    }
}

#[test]
fn slugify_owned_agrees() {
    assert_eq!(slugify_owned("Hello, World!".to_string()), "hello-world");
}

#[test]
fn namespaced_name_round_trip() {
    assert_eq!(NamespacedName::from("web.default").to_string(), "web.default");
    let n = NamespacedName::from("web.default");
    assert_eq!(n.name, "web");
    assert_eq!(n.namespace, "default");
}

#[test]
fn namespaced_name_first_and_last_segment() {
    let n = NamespacedName::from("a.b.c");
    assert_eq!(n.name, "a");
    assert_eq!(n.namespace, "c");
}

#[test]
fn namespaced_name_without_dot() {
    let n = NamespacedName::from("web");
    assert_eq!(n.name, "web");
    assert_eq!(n.namespace, "");
}

#[test]
fn namespaced_name_new() {
    let n = NamespacedName::new("web", "default");
    assert_eq!(n.name, "web");
    assert_eq!(n.namespace, "default");
    assert_eq!(n.to_string(), "web.default");
}

fn sample() -> ResourceDescription {
    let mut r = ResourceDescription::new("web", "default", "replicas: 2\n");
    r.set_annotation("note", "n");
    r
}

#[test]
fn fingerprint_ignores_label_order() {
    let mut a = sample();
    a.set_label("b", "2");
    a.set_label("a", "1");
    let mut b = sample();
    b.set_label("a", "1");
    b.set_label("b", "2");
    assert_eq!(calc_k8s_resource_hash(&a), calc_k8s_resource_hash(&b));
}

#[test]
fn fingerprint_ignores_annotation_order() {
    let mut a = sample();
    a.set_annotation("z", "26");
    a.set_annotation("b", "2");
    let mut b = ResourceDescription::new("web", "default", "replicas: 2\n");
    b.set_annotation("b", "2");
    b.set_annotation("z", "26");
    b.set_annotation("note", "n");
    assert_eq!(calc_k8s_resource_hash(&a), calc_k8s_resource_hash(&b));
}

#[test]
fn canonical_form_is_sorted() {
    let mut a = sample();
    a.set_label("b", "2");
    a.set_label("skate.io/hash", "0123");
    a.set_label("a", "1");
    a.set_label("B", "3");
    a.generation = Some(4);
    assert_eq!(
        canonical_form(&a),
        "3:web\n7:default\n3\n1:B\n1:3\n1:a\n1:1\n1:b\n1:2\n1\n4:note\n1:n\nreplicas: 2\n"
    );
}

#[test]
fn fingerprint_ignores_generation_and_hash_label() {
    let mut a = sample();
    a.set_label("a", "1");
    let mut b = sample();
    b.set_label("a", "1");
    b.generation = Some(7);
    b.set_label("skate.io/hash", "deadbeef");
    assert_eq!(calc_k8s_resource_hash(&a), calc_k8s_resource_hash(&b));
    let mut c = sample();
    c.set_label("skate.io/hash", "other");
    c.set_label("a", "1");
    assert_eq!(calc_k8s_resource_hash(&b), calc_k8s_resource_hash(&c));
}

#[test]
fn fingerprint_sees_other_changes() {
    let mut a = sample();
    a.set_label("a", "1");
    let base = calc_k8s_resource_hash(&a);
    let mut b = sample();
    b.set_label("a", "2");
    assert_ne!(calc_k8s_resource_hash(&b), base);
    let mut c = ResourceDescription::new("web", "default", "replicas: 3\n");
    c.set_annotation("note", "n");
    c.set_label("a", "1");
    assert_ne!(calc_k8s_resource_hash(&c), base);
    let mut d = sample();
    d.set_label("a", "1");
    d.set_annotation("note", "m");
    assert_ne!(calc_k8s_resource_hash(&d), base);
}

#[test]
fn fingerprint_is_sixteen_hex_digits() {
    let h = calc_k8s_resource_hash(&sample());
    assert_eq!(h.len(), 16);
    assert!(h.chars().all(|c| c.is_ascii_digit() || ('a'..='f').contains(&c)));
}

#[test]
fn fingerprint_leaves_the_resource() {
    let mut a = sample();
    a.set_label("b", "2");
    a.set_label("a", "1");
    a.generation = Some(3);
    let _ = calc_k8s_resource_hash(&a);
    assert_eq!(a.labels[0].key, "b");
    assert_eq!(a.labels[1].key, "a");
    assert_eq!(a.generation, Some(3));
}

#[test]
fn stamp_writes_the_hash_label() {
    let mut a = sample();
    a.set_label("a", "1");
    let expected = calc_k8s_resource_hash(&a);
    let h = hash_k8s_resource(&mut a);
    assert_eq!(h, expected);
    assert_eq!(get_skate_label_value(&Some(a.labels.clone_labels()), &SkateLabels::Hash), Some(h.clone()));
    assert_eq!(a.hash(), h);
    assert_eq!(a.labels.len(), 2);
    let again = hash_k8s_resource(&mut a);
    assert_eq!(again, h);
    assert_eq!(a.labels.len(), 2);
}

trait CloneLabels {
    fn clone_labels(&self) -> Vec<Label>;
}

impl CloneLabels for Vec<Label> {
    fn clone_labels(&self) -> Vec<Label> {
        self.iter().map(|l| l.duplicate()).collect()
    }
}

#[test]
fn set_label_overwrites() {
    let mut a = sample();
    a.set_label("a", "1");
    a.set_label("b", "2");
    a.set_label("a", "3");
    assert_eq!(a.labels.len(), 2);
    assert_eq!(a.labels[0].key, "a");
    assert_eq!(a.labels[0].value, "3");
}

#[test]
fn identity_from_labels() {
    let mut a = sample();
    a.set_label("skate.io/name", "web");
    assert!(matches!(metadata_name(&a), Err(LabelError::MissingIdentityLabels)));
    a.set_label("skate.io/namespace", "prod");
    let n = metadata_name(&a).unwrap();
    assert_eq!(n.name, "web");
    assert_eq!(n.namespace, "prod");
    assert_eq!(a.namespaced_name().unwrap().to_string(), "web.prod");
    assert_eq!(a.hash(), "");
}

#[test]
fn hash_string_is_the_default_hash() {
    for text in ["", "abc", "kind: Pod\n", "北京"] {
        let mut hasher = DefaultHasher::new();
        text.hash(&mut hasher);
        assert_eq!(hash_string(text), format!("{:x}", hasher.finish()));
    }
}

#[test]
fn split_image_forms() {
    let (image, tag) = split_container_image("nginx:1.25");
    assert_eq!(image, "nginx");
    assert!(matches!(&tag, ImageTagFormat::Tag(t) if t == "1.25"));
    assert_eq!(tag.to_suffix(), ":1.25");
    let (image, tag) = split_container_image("repo:5000/nginx@sha256:abc");
    assert_eq!(image, "repo:5000/nginx");
    assert!(matches!(&tag, ImageTagFormat::Digest(d) if d == "sha256:abc"));
    assert_eq!(tag.to_suffix(), "@sha256:abc");
    let (image, tag) = split_container_image("nginx");
    assert_eq!(image, "nginx");
    assert!(matches!(tag, ImageTagFormat::Bare));
    assert_eq!(tag.to_suffix(), "");
}
