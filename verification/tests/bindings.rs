use msl_backend::binding::{LocationMode, ResolvedBinding};
use msl_backend::ir::{Binding, BuiltIn};
use msl_backend::{BindSource, BindTarget, BindingMap, Error, Options};

fn target(buffer: Option<u8>, texture: Option<u8>, sampler: Option<u8>) -> BindTarget {
    BindTarget { buffer, texture, sampler }
}

fn resolved_text(map: &BindingMap, binding: Binding, mode: LocationMode) -> String {
    let options = Options { binding_map: map };
    options.resolve_binding(&binding, mode).unwrap().to_string()
}

const MODES: [LocationMode; 3] =
    [LocationMode::VertexInput, LocationMode::FragmentOutput, LocationMode::Intermediate];

#[test]
fn descriptor_resolves_to_the_populated_slot() {
    let mut map = BindingMap::new();
    assert!(map.insert(BindSource { set: 0, binding: 0 }, target(Some(3), None, None)));
    assert!(map.insert(BindSource { set: 0, binding: 1 }, target(None, Some(4), None)));
    assert!(map.insert(BindSource { set: 1, binding: 0 }, target(None, None, Some(5))));
    for mode in MODES {
        assert_eq!(resolved_text(&map, Binding::Descriptor { set: 0, binding: 0 }, mode), "buffer(3)");
        assert_eq!(resolved_text(&map, Binding::Descriptor { set: 0, binding: 1 }, mode), "texture(4)");
        assert_eq!(resolved_text(&map, Binding::Descriptor { set: 1, binding: 0 }, mode), "sampler(5)");
    }
}

#[test]
fn buffer_comes_before_texture_before_sampler() {
    let mut map = BindingMap::new();
    map.insert(BindSource { set: 0, binding: 0 }, target(Some(1), Some(2), Some(3)));
    map.insert(BindSource { set: 0, binding: 1 }, target(None, Some(2), Some(3)));
    map.insert(BindSource { set: 0, binding: 2 }, target(Some(1), None, Some(3)));
    let mode = LocationMode::Intermediate;
    assert_eq!(resolved_text(&map, Binding::Descriptor { set: 0, binding: 0 }, mode), "buffer(1)");
    assert_eq!(resolved_text(&map, Binding::Descriptor { set: 0, binding: 1 }, mode), "texture(2)");
    assert_eq!(resolved_text(&map, Binding::Descriptor { set: 0, binding: 2 }, mode), "buffer(1)");
}

#[test]
fn descriptor_resolves_to_the_target_itself() {
    let mut map = BindingMap::new();
    let slot = target(None, Some(9), None);
    map.insert(BindSource { set: 7, binding: 8 }, slot);
    let options = Options { binding_map: &map };
    let resolved =
        options.resolve_binding(&Binding::Descriptor { set: 7, binding: 8 }, LocationMode::VertexInput);
    assert_eq!(resolved, Ok(ResolvedBinding::Resource(slot)));
}

#[test]
fn location_follows_the_mode() {
    let map = BindingMap::new();
    for index in [0u32, 1, 9, 10, 42, 4294967295] {
        let binding = Binding::Location(index);
        assert_eq!(
            resolved_text(&map, binding, LocationMode::VertexInput),
            format!("attribute({})", index)
        );
        assert_eq!(
            resolved_text(&map, binding, LocationMode::FragmentOutput),
            format!("color({})", index)
        );
        assert_eq!(
            resolved_text(&map, binding, LocationMode::Intermediate),
            format!("user(loc{})", index)
        );
    }
}

#[test]
fn location_resolves_to_the_variant_of_the_mode() {
    let map = BindingMap::new();
    let options = Options { binding_map: &map };
    assert_eq!(
        options.resolve_binding(&Binding::Location(3), LocationMode::VertexInput),
        Ok(ResolvedBinding::Attribute(3))
    );
    assert_eq!(
        options.resolve_binding(&Binding::Location(3), LocationMode::FragmentOutput),
        Ok(ResolvedBinding::Color(3))
    );
    assert_eq!(
        options.resolve_binding(&Binding::Location(3), LocationMode::Intermediate),
        Ok(ResolvedBinding::User { prefix: "loc", index: 3 })
    );
}

#[test]
fn built_in_has_a_fixed_name_in_every_mode() {
    let map = BindingMap::new();
    for mode in MODES {
        assert_eq!(
            resolved_text(&map, Binding::BuiltIn(BuiltIn::ClipDistance), mode),
            "clip_distance"
        );
        assert_eq!(resolved_text(&map, Binding::BuiltIn(BuiltIn::PointSize), mode), "point_size");
        assert_eq!(resolved_text(&map, Binding::BuiltIn(BuiltIn::Position), mode), "position");
    }
}

#[test]
fn missing_descriptor_fails_with_its_source() {
    let mut map = BindingMap::new();
    map.insert(BindSource { set: 1, binding: 2 }, target(Some(0), None, None));
    let options = Options { binding_map: &map };
    for mode in MODES {
        assert_eq!(
            options.resolve_binding(&Binding::Descriptor { set: 2, binding: 1 }, mode),
            Err(Error::MissingBindTarget(BindSource { set: 2, binding: 1 }))
        );
        assert_eq!(
            options.resolve_binding(&Binding::Descriptor { set: 1, binding: 3 }, mode),
            Err(Error::MissingBindTarget(BindSource { set: 1, binding: 3 }))
        );
    }
}

#[test]
fn map_keeps_sources_apart() {
    let mut map = BindingMap::new();
    map.insert(BindSource { set: 0, binding: 1 }, target(Some(1), None, None));
    map.insert(BindSource { set: 1, binding: 0 }, target(Some(2), None, None));
    map.insert(BindSource { set: 4294967295, binding: 4294967295 }, target(Some(3), None, None));
    assert_eq!(map.get(&BindSource { set: 0, binding: 1 }), Some(target(Some(1), None, None)));
    assert_eq!(map.get(&BindSource { set: 1, binding: 0 }), Some(target(Some(2), None, None)));
    assert_eq!(
        map.get(&BindSource { set: 4294967295, binding: 4294967295 }),
        Some(target(Some(3), None, None))
    );
    assert_eq!(map.get(&BindSource { set: 0, binding: 0 }), None);
    assert_eq!(map.get(&BindSource { set: 1, binding: 1 }), None);
}

#[test]
fn map_replaces_an_earlier_target() {
    let mut map = BindingMap::new();
    let source = BindSource { set: 3, binding: 3 };
    assert!(map.insert(source, target(Some(1), None, None)));
    assert!(map.insert(source, target(None, None, Some(2))));
    assert_eq!(map.get(&source), Some(target(None, None, Some(2))));
}

#[test]
fn map_refuses_a_target_without_slot() {
    let mut map = BindingMap::new();
    let source = BindSource { set: 0, binding: 0 };
    assert!(!map.insert(source, target(None, None, None)));
    assert_eq!(map.get(&source), None);
    assert!(map.insert(source, target(Some(1), None, None)));
    assert!(!map.insert(source, target(None, None, None)));
    assert_eq!(map.get(&source), Some(target(Some(1), None, None)));
}

#[test]
fn populated_tells_whether_a_slot_is_named() {
    assert!(!target(None, None, None).populated());
    assert!(target(Some(0), None, None).populated());
    assert!(target(None, Some(0), None).populated());
    assert!(target(None, None, Some(0)).populated());
}

#[test]
fn resolved_binding_is_appended_to_the_text() {
    let mut out = String::from("[[");
    ResolvedBinding::Color(255).write_to(&mut out);
    assert_eq!(out, "[[color(255)");
}

#[test]
fn format_failure_becomes_an_error() {
    assert_eq!(Error::from(std::fmt::Error), Error::Format(std::fmt::Error));
}
