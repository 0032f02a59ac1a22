use portal_gtk::chooser::{Filter, FilterKind, FinalChoice};
use portal_gtk::wire::{
    map_choice, map_choices, map_cstr, map_filter, map_filters, map_final_choice, map_final_choices, unmap_filter,
    FilePath, MalformedPath,
};

fn text_files() -> (String, Vec<(u32, String)>) {
    (
        "Text files".to_string(),
        vec![(0, "*.txt".to_string()), (1, "text/plain".to_string()), (9, "ignored".to_string())],
    )
}

#[test]
fn filter_drops_unknown_codes() {
    let f = map_filter(text_files());
    assert_eq!(f.name, "Text files");
    assert!(f.elements == vec![FilterKind::Glob("*.txt".to_string()), FilterKind::Mime("text/plain".to_string())]);
}

#[test]
fn filter_round_trip_scenario() {
    let back = unmap_filter(map_filter(text_files()));
    assert_eq!(back.0, "Text files");
    assert_eq!(back.1, vec![(0, "*.txt".to_string()), (1, "text/plain".to_string())]);
    let again = unmap_filter(map_filter(back.clone()));
    assert_eq!(again, back);
}

#[test]
fn filters_keep_order() {
    let fs = map_filters(vec![text_files(), ("Images".to_string(), vec![(1, "image/png".to_string())])]);
    assert_eq!(fs.len(), 2);
    assert_eq!(fs[1].name, "Images");
    assert!(fs[1].elements == vec![FilterKind::Mime("image/png".to_string())]);
}

#[test]
fn filter_equality_is_structural() {
    let a = map_filter(text_files());
    let b = Filter {
        name: "Text files".to_string(),
        elements: vec![FilterKind::Glob("*.txt".to_string()), FilterKind::Mime("text/plain".to_string())],
    };
    assert!(a == b);
    let c = Filter { name: "Text files".to_string(), elements: vec![FilterKind::Mime("*.txt".to_string())] };
    assert!(a != c);
}

#[test]
fn choice_maps_variants() {
    let c = map_choice((
        "encoding".to_string(),
        "Encoding".to_string(),
        vec![("utf8".to_string(), "UTF-8".to_string()), ("latin1".to_string(), "Latin-1".to_string())],
        "utf8".to_string(),
    ));
    assert_eq!(c.id, "encoding");
    assert_eq!(c.label, "Encoding");
    assert_eq!(c.default, "utf8");
    assert_eq!(c.variants.len(), 2);
    assert_eq!(c.variants[1].id, "latin1");
    assert_eq!(c.variants[1].label, "Latin-1");
    let cs = map_choices(vec![("a".to_string(), "A".to_string(), vec![], "".to_string())]);
    assert_eq!(cs.len(), 1);
    assert_eq!(cs[0].id, "a");
}

#[test]
fn final_choices_become_pairs() {
    let p = map_final_choice(FinalChoice { id: "enc".to_string(), variant_id: "utf8".to_string() });
    assert_eq!(p, ("enc".to_string(), "utf8".to_string()));
    let ps = map_final_choices(vec![
        FinalChoice { id: "a".to_string(), variant_id: "1".to_string() },
        FinalChoice { id: "b".to_string(), variant_id: "2".to_string() },
    ]);
    assert_eq!(ps, vec![("a".to_string(), "1".to_string()), ("b".to_string(), "2".to_string())]);
}

#[test]
fn path_field_strips_nul() {
    let p = FilePath::from_wire_bytes(b"/home/u\0".to_vec()).unwrap();
    assert_eq!(map_cstr(p), "/home/u");
    let p = FilePath::from_wire_bytes(vec![0]).unwrap();
    assert_eq!(p.0, "");
}

#[test]
fn path_field_without_nul_is_malformed() {
    assert_eq!(FilePath::from_wire_bytes(b"/home/u".to_vec()).err(), Some(MalformedPath));
    assert_eq!(FilePath::from_wire_bytes(Vec::new()).err(), Some(MalformedPath));
}

#[test]
fn path_field_keeps_interior_nul() {
    let p = FilePath::from_wire_bytes(b"a\0b\0".to_vec()).unwrap();
    assert_eq!(p.0, "a\0b");
}

#[test]
fn path_field_replaces_invalid_bytes() {
    let p = FilePath::from_wire_bytes(vec![b'a', 0xff, b'b', 0]).unwrap();
    assert_eq!(p.0, "a\u{FFFD}b");
}
